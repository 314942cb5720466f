//! Dense batches of images.
//!
//! A batch holds `n` images of one size as one buffer of bytes: image after
//! image, row after row from the top, pixel after pixel from the left, and
//! red, green and blue for each pixel.

use crate::pixels::RgbImage;
use vstd::prelude::*;
use vstd::slice::slice_to_vec;

verus! {

/// A batch of images of one size in one buffer.
#[derive(Debug, Clone)]
pub struct RgbImageBatch {
    /// The bytes of the images, one image after another.
    pub data: Vec<u8>,
    /// Number of images, height, width and channels.
    pub shape: Vec<usize>,
}

impl RgbImageBatch {
    /// The number of bytes that the shape calls for.
    pub open spec fn volume(&self) -> int {
        self.shape@[0] * self.shape@[1] * self.shape@[2] * self.shape@[3]
    }

    /// Whether the shape is that of a batch: four numbers, the last of them
    /// three, and a number of bytes that a buffer can hold.
    pub open spec fn wf(&self) -> bool {
        &&& self.shape@.len() == 4
        &&& self.shape@[3] == 3
        &&& self.volume() <= usize::MAX
    }

    /// Whether every image of the batch is in the buffer.
    pub open spec fn is_complete(&self) -> bool {
        self.wf() && self.data@.len() == self.volume()
    }

    /// An empty batch of the given shape, with room for its images where the
    /// number of their bytes can be counted.
    pub fn new(shape: &[usize]) -> (r: RgbImageBatch)
        requires
            shape@.len() == 4,
            shape@[3] == 3,
        ensures
            r.shape@ == shape@,
            r.data@ == Seq::<u8>::empty(),
    {
        let room = match shape[0].checked_mul(shape[1]) {
            Some(a) => match a.checked_mul(shape[2]) {
                Some(b) => b.checked_mul(shape[3]),
                None => None,
            },
            None => None,
        };
        let data: Vec<u8> = match room {
            Some(bytes) => Vec::with_capacity(bytes),
            None => Vec::new(),
        };
        RgbImageBatch { data, shape: slice_to_vec(shape) }
    }

    /// Adds the pixels of `img` at the end of the buffer.
    pub fn push_rgb_pixels(&mut self, img: &RgbImage)
        ensures
            final(self).shape == old(self).shape,
            final(self).data@ == old(self).data@ + img.data@,
    {
        let mut i: usize = 0;
        while i < img.data.len()
            invariant
                i <= img.data@.len(),
                self.shape == old(self).shape,
                self.data@ == old(self).data@ + img.data@.take(i as int),
            decreases img.data@.len() - i,
        {
            self.data.push(img.data[i]);
            assert(img.data@.take(i + 1) =~= img.data@.take(i as int).push(img.data@[i as int]));
            i += 1;
        }
        assert(img.data@.take(i as int) =~= img.data@);
    }

    /// Number of images.
    pub fn batch_size(&self) -> (r: usize)
        requires
            self.shape@.len() == 4,
        ensures
            r == self.shape@[0],
    {
        self.shape[0]
    }

    /// Height of the images, in pixels.
    pub fn height(&self) -> (r: usize)
        requires
            self.shape@.len() == 4,
        ensures
            r == self.shape@[1],
    {
        self.shape[1]
    }

    /// Width of the images, in pixels.
    pub fn width(&self) -> (r: usize)
        requires
            self.shape@.len() == 4,
        ensures
            r == self.shape@[2],
    {
        self.shape[2]
    }

    /// Colour channels of the images.
    pub fn channels(&self) -> (r: usize)
        requires
            self.shape@.len() == 4,
        ensures
            r == self.shape@[3],
    {
        self.shape[3]
    }

    /// The number of bytes of the complete batch.
    pub fn size(&self) -> (r: usize)
        requires
            self.wf(),
        ensures
            r == self.volume(),
    {
        let n: usize = self.shape[0];
        let h: usize = self.shape[1];
        let w: usize = self.shape[2];
        if n == 0 || h == 0 || w == 0 {
            assert(n * h * w * 3 == 0) by (nonlinear_arith)
                requires
                    n == 0 || h == 0 || w == 0,
            ;
            return 0;
        }
        assert(n * h <= n * h * w * 3 && n * h * w <= n * h * w * 3) by (nonlinear_arith)
            requires
                n >= 1,
                h >= 1,
                w >= 1,
        ;
        n * h * w * 3
    }
}

} // verus!
