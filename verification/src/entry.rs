//! Decoded cache entries: the unit that a decode task produces and the window
//! cache stores. An entry is either ready (it carries a pixel buffer) or a
//! tombstone recording a permanent decode failure, so that the scheduler never
//! re-requests a file that cannot be decoded.

use vstd::prelude::*;

verus! {

/// A decoded RGBA pixel buffer, 4 bytes per pixel.
pub struct PixelBuffer {
    pub width: u32,
    pub height: u32,
    pub rgba: Vec<u8>,
}

impl PixelBuffer {
    /// The byte length matches the dimensions.
    pub open spec fn wf(self) -> bool {
        self.rgba@.len() == 4 * self.width * self.height
    }

    pub fn new(width: u32, height: u32, rgba: Vec<u8>) -> (r: PixelBuffer)
        requires
            rgba@.len() == 4 * width * height,
        ensures
            r == (PixelBuffer { width, height, rgba }),
            r.wf(),
    {
        PixelBuffer { width, height, rgba }
    }
}

/// How a decode task ended: with pixels, or with a permanent failure.
pub enum DecodeOutcome {
    Ready,
    Failed { reason: String },
}

/// One slot of the window cache: the identifier it was decoded from, the pixels
/// (absent on failure), the formatted metadata text, and the outcome.
pub struct CacheEntry {
    pub identifier: String,
    pub pixels: Option<PixelBuffer>,
    pub metadata: String,
    pub outcome: DecodeOutcome,
}

impl CacheEntry {
    /// Pixels are present exactly when the decode succeeded.
    pub open spec fn wf(self) -> bool {
        &&& self.outcome is Ready <==> self.pixels is Some
        &&& self.pixels is Some ==> self.pixels->0.wf()
    }

    /// A successfully decoded entry.
    pub fn ready(identifier: String, pixels: PixelBuffer, metadata: String) -> (r: CacheEntry)
        requires
            pixels.wf(),
        ensures
            r.identifier == identifier,
            r.pixels == Some(pixels),
            r.metadata == metadata,
            r.outcome is Ready,
            r.wf(),
    {
        CacheEntry { identifier, pixels: Some(pixels), metadata, outcome: DecodeOutcome::Ready }
    }

    /// A tombstone: records that decoding this identifier failed, so the index
    /// is treated as cached and never re-dispatched.
    pub fn tombstone(identifier: String, reason: String) -> (r: CacheEntry)
        ensures
            r.identifier == identifier,
            r.pixels is None,
            r.metadata@ == Seq::<char>::empty(),
            r.outcome == (DecodeOutcome::Failed { reason }),
            r.wf(),
    {
        CacheEntry {
            identifier,
            pixels: None,
            metadata: String::new(),
            outcome: DecodeOutcome::Failed { reason },
        }
    }

    /// Whether this entry holds pixels (as opposed to a failure tombstone).
    pub fn is_ready(&self) -> (r: bool)
        ensures
            r == (self.outcome is Ready),
    {
        match self.outcome {
            DecodeOutcome::Ready => true,
            DecodeOutcome::Failed { .. } => false,
        }
    }
}

} // verus!
