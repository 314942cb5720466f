//! What packing images into a batch gives.
//!
//! The images are taken in order. The first fixes the size of the batch. The
//! first image that could not be loaded, or that is not of the size of the
//! first, ends the batch with its error; otherwise the buffer holds the bytes
//! of all images, one image after another.

use crate::batch::RgbImageBatch;
use crate::error::IndexError;
use crate::pixels::{decoded_image, Pixels, RgbImage};
use vstd::prelude::*;

verus! {

/// Whether two images have the same width and the same height.
pub open spec fn same_size(a: RgbImage, b: RgbImage) -> bool {
    a.width == b.width && a.height == b.height
}

/// The shape of a batch of `n` images of the size of `first`: number of
/// images, height, width, channels.
pub open spec fn shape_for(n: int, first: Pixels) -> Seq<usize> {
    seq![n as usize, first.height as usize, first.width as usize, 3usize]
}

/// The shape of a batch of `n` images of the size of `first`.
pub open spec fn batch_shape(n: int, first: RgbImage) -> Seq<usize> {
    shape_for(n, first@)
}

/// What loading one image gave, the image as its mathematical value.
pub open spec fn loaded_view(r: Result<RgbImage, IndexError>) -> Result<Pixels, IndexError> {
    match r {
        Ok(img) => Ok(img@),
        Err(e) => Err(e),
    }
}

/// Each image as what loading it gave.
pub open spec fn all_loaded(images: Seq<RgbImage>) -> Seq<Result<RgbImage, IndexError>> {
    Seq::new(images.len(), |i: int| Ok::<RgbImage, IndexError>(images[i]))
}

/// What loading each image gave.
pub open spec fn loaded_views(loaded: Seq<Result<RgbImage, IndexError>>) -> Seq<
    Result<Pixels, IndexError>,
> {
    Seq::new(loaded.len(), |i: int| loaded_view(loaded[i]))
}

/// The error that item `k` ends a batch with, if it does: its own where it
/// could not be loaded, a dimension mismatch where it is not of the size of
/// the first.
pub open spec fn step_fault(items: Seq<Result<Pixels, IndexError>>, k: int) -> Option<IndexError> {
    match items[k] {
        Err(e) => Some(e),
        Ok(p) => match items[0] {
            Ok(first) => if p.width == first.width && p.height == first.height {
                None
            } else {
                Some(IndexError::DimensionMismatch)
            },
            Err(_) => None,
        },
    }
}

/// The error of the first among the first `k` items that ends the batch.
pub open spec fn first_fault(items: Seq<Result<Pixels, IndexError>>, k: int) -> Option<IndexError>
    decreases k,
{
    if k <= 0 || k > items.len() {
        None
    } else {
        match first_fault(items, k - 1) {
            Some(e) => Some(e),
            None => step_fault(items, k - 1),
        }
    }
}

/// The bytes of the first `k` images, one image after another.
pub open spec fn packed(items: Seq<Result<Pixels, IndexError>>, k: int) -> Seq<u8>
    decreases k,
{
    if k <= 0 || k > items.len() {
        Seq::empty()
    } else {
        packed(items, k - 1) + match items[k - 1] {
            Ok(p) => p.data,
            Err(_) => Seq::empty(),
        }
    }
}

/// What packing gives, `items` being what loading each image gave: shape and
/// buffer of the batch, or the error of the first item that ends it.
pub open spec fn pack_outcome(items: Seq<Result<Pixels, IndexError>>) -> Result<
    (Seq<usize>, Seq<u8>),
    IndexError,
> {
    match first_fault(items, items.len() as int) {
        Some(e) => Err(e),
        None => Ok(
            (shape_for(items.len() as int, items[0]->Ok_0), packed(items, items.len() as int)),
        ),
    }
}

/// Shape and buffer of a batch, or the error in place of one.
pub open spec fn batch_view(r: Result<RgbImageBatch, IndexError>) -> Result<
    (Seq<usize>, Seq<u8>),
    IndexError,
> {
    match r {
        Ok(batch) => Ok((batch.shape@, batch.data@)),
        Err(e) => Err(e),
    }
}

/// Whether `r` is what a run over `n` images ends with, `items` being what
/// loading gave as far as the run went: the batch where all `n` are in, or
/// the error of the last item loaded, which is the first that ends the run.
pub open spec fn run_result(
    items: Seq<Result<Pixels, IndexError>>,
    n: int,
    r: Result<RgbImageBatch, IndexError>,
) -> bool {
    match r {
        Ok(batch) => {
            &&& items.len() == n
            &&& first_fault(items, n) is None
            &&& batch.shape@ == shape_for(n, items[0]->Ok_0)
            &&& batch.data@ == packed(items, n)
        },
        Err(e) => {
            &&& 1 <= items.len() <= n
            &&& first_fault(items, items.len() - 1) is None
            &&& step_fault(items, items.len() - 1) == Some(e)
        },
    }
}

/// What loading the image of a file gives: its pixels, or a decode error.
pub open spec fn file_outcome(encoded: Seq<u8>) -> Result<Pixels, IndexError> {
    match decoded_image(encoded) {
        Some(p) => Ok(p),
        None => Err(IndexError::DecodeError),
    }
}

/// What loading the image of each file gives.
pub open spec fn file_outcomes(files: Seq<Vec<u8>>) -> Seq<Result<Pixels, IndexError>> {
    Seq::new(files.len(), |i: int| file_outcome(files[i]@))
}

/// Each image as an item that was loaded.
pub open spec fn image_items(images: Seq<RgbImage>) -> Seq<Result<Pixels, IndexError>> {
    Seq::new(images.len(), |i: int| Ok::<Pixels, IndexError>(images[i]@))
}

/// The first fault among the first `k` items looks at nothing behind them.
pub proof fn lemma_first_fault_prefix(
    a: Seq<Result<Pixels, IndexError>>,
    b: Seq<Result<Pixels, IndexError>>,
    k: int,
)
    requires
        0 <= k <= a.len(),
        k <= b.len(),
        forall|i: int| 0 <= i < k ==> a[i] == b[i],
    ensures
        first_fault(a, k) == first_fault(b, k),
        packed(a, k) == packed(b, k),
    decreases k,
{
    if k > 0 {
        lemma_first_fault_prefix(a, b, k - 1);
    }
}

/// A fault among the first `k` items is the first fault of any longer run.
pub proof fn lemma_first_fault_stays(items: Seq<Result<Pixels, IndexError>>, k: int, n: int)
    requires
        0 <= k <= n <= items.len(),
        first_fault(items, k) is Some,
    ensures
        first_fault(items, n) == first_fault(items, k),
    decreases n - k,
{
    if k < n {
        lemma_first_fault_stays(items, k, n - 1);
    }
}

/// Where the first `k` items are images of one size, none of them ends the
/// batch, and the buffer holds as many bytes as `k` images have.
pub proof fn lemma_uniform_items(items: Seq<Result<Pixels, IndexError>>, k: int)
    requires
        0 <= k <= items.len(),
        forall|i: int| 0 <= i < k ==> (#[trigger] items[i]) is Ok,
        forall|i: int|
            0 <= i < k ==> (#[trigger] items[i])->Ok_0.width == items[0]->Ok_0.width
                && items[i]->Ok_0.height == items[0]->Ok_0.height,
    ensures
        first_fault(items, k) is None,
        (forall|i: int|
            0 <= i < k ==> (#[trigger] items[i])->Ok_0.data.len() == items[i]->Ok_0.width
                * items[i]->Ok_0.height * 3) ==> packed(items, k).len() == k * (
        items[0]->Ok_0.width * items[0]->Ok_0.height * 3),
    decreases k,
{
    if k > 0 {
        lemma_uniform_items(items, k - 1);
        assert(items[k - 1] is Ok);
        assert(items[0] is Ok);
        if forall|i: int|
            0 <= i < k ==> (#[trigger] items[i])->Ok_0.data.len() == items[i]->Ok_0.width
                * items[i]->Ok_0.height * 3 {
            let unit = items[0]->Ok_0.width * items[0]->Ok_0.height * 3;
            assert(items[k - 1]->Ok_0.data.len() == unit);
            assert(k * unit == (k - 1) * unit + unit) by (nonlinear_arith);
        }
    }
}

/// A run over `full.len()` images that went through the first items of
/// `full` ends as packing all of `full` does.
pub proof fn lemma_run_is_outcome(
    part: Seq<Result<Pixels, IndexError>>,
    full: Seq<Result<Pixels, IndexError>>,
    r: Result<RgbImageBatch, IndexError>,
)
    requires
        part.len() <= full.len(),
        forall|i: int| 0 <= i < part.len() ==> part[i] == full[i],
        run_result(part, full.len() as int, r),
    ensures
        batch_view(r) == pack_outcome(full),
{
    let n = full.len() as int;
    let m = part.len() as int;
    if r is Ok {
        assert(part =~= full);
    } else {
        lemma_first_fault_prefix(part, full, m - 1);
        assert(step_fault(part, m - 1) == step_fault(full, m - 1));
        assert(first_fault(full, m) is Some);
        lemma_first_fault_stays(full, m, n);
    }
}

/// Packing two images of different size fails with a dimension mismatch,
/// whatever follows them.
pub proof fn lemma_mixed_sizes_mismatch(items: Seq<Result<Pixels, IndexError>>)
    requires
        items.len() >= 2,
        items[0] is Ok,
        items[1] is Ok,
        items[0]->Ok_0.width != items[1]->Ok_0.width || items[0]->Ok_0.height
            != items[1]->Ok_0.height,
    ensures
        pack_outcome(items) == Err::<(Seq<usize>, Seq<u8>), IndexError>(
            IndexError::DimensionMismatch,
        ),
{
    assert(first_fault(items, 0) is None);
    assert(first_fault(items, 1) is None);
    assert(first_fault(items, 2) == Some(IndexError::DimensionMismatch));
    lemma_first_fault_stays(items, 2, items.len() as int);
}

/// The batch of one image twice holds its bytes twice, one copy after the
/// other.
pub proof fn lemma_pack_twice(p: Pixels)
    ensures
        pack_outcome(seq![Ok::<Pixels, IndexError>(p), Ok::<Pixels, IndexError>(p)]) == Ok::<
            (Seq<usize>, Seq<u8>),
            IndexError,
        >((seq![2usize, p.height as usize, p.width as usize, 3usize], p.data + p.data)),
{
    let items = seq![Ok::<Pixels, IndexError>(p), Ok::<Pixels, IndexError>(p)];
    assert(first_fault(items, 0) is None);
    assert(first_fault(items, 1) is None);
    assert(first_fault(items, 2) is None);
    assert(packed(items, 0) =~= Seq::<u8>::empty());
    assert(packed(items, 1) =~= p.data);
    assert(packed(items, 2) =~= p.data + p.data);
}

} // verus!
