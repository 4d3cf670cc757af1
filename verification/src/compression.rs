//! Response compression is a declared non-goal of this core: the settings
//! parse and are carried, but the compressor itself never engages.

use vstd::prelude::*;
use crate::config::CompressionConfig;

verus! {

pub struct Compressor;

impl Compressor {
    /// The compressor holds no state; the settings are carried elsewhere.
    pub fn new(_config: CompressionConfig) -> (r: Self)
        ensures
            r == (Compressor { }),
    {
        Self
    }

    /// Compression never engages at this layer.
    pub fn should_compress(&self, _content_type: &str, _content_length: usize) -> (r: bool)
        ensures
            r == false,
    {
        false
    }
}

} // verus!
