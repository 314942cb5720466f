//! Decoded images and dense batches of them.

pub use crate::batch::RgbImageBatch;
pub use crate::loading::{
    load_batch, load_bhwc_rgbimagebatch, load_bhwc_rgbimagebatch_with, pack_bhwc,
};
pub use crate::pixels::{load_rgbimage, RgbImage};
