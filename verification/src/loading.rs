//! Loading images one after another into a batch.

use crate::batch::RgbImageBatch;
use crate::error::IndexError;
use crate::packing::{
    all_loaded, batch_shape, batch_view, file_outcome, file_outcomes, image_items,
    lemma_run_is_outcome, lemma_uniform_items, loaded_view, loaded_views, pack_outcome, packed,
    run_result, same_size,
};
use crate::pixels::{load_rgbimage, Pixels, RgbImage};
use vstd::prelude::*;
use vstd::slice::slice_to_vec;

verus! {

/// What a run of [`load_batch`] went through before it ended.
pub struct BatchTrace<T> {
    /// The images that were loaded, in order.
    pub images: Seq<RgbImage>,
    /// The shape that was handed to the first callback.
    pub shape: [usize; 4],
    /// The batch as the first callback made it, then as it was after each
    /// image that the second callback took.
    pub states: Seq<T>,
}

/// Whether `trace` records steps that the three callbacks can have taken on
/// `paths`, each image after the first being of the size of the first.
pub open spec fn trace_follows<T, P, L, D, I>(
    paths: Seq<P>,
    load: L,
    on_dims: D,
    on_img: I,
    trace: BatchTrace<T>,
) -> bool where
    L: Fn(&P) -> Result<RgbImage, IndexError>,
    D: Fn(&[usize; 4]) -> Result<T, IndexError>,
    I: Fn(T, usize, &RgbImage) -> Result<T, IndexError>,
 {
    &&& trace.images.len() <= paths.len()
    &&& forall|i: int|
        0 <= i < trace.images.len() ==> call_ensures(
            load,
            (&paths[i],),
            Ok::<RgbImage, IndexError>(#[trigger] trace.images[i]),
        )
    &&& trace.states.len() <= trace.images.len() + 1
    &&& trace.states.len() > 0 ==> {
        &&& trace.images.len() > 0
        &&& trace.shape@ == batch_shape(paths.len() as int, trace.images[0])
        &&& call_ensures(on_dims, (&trace.shape,), Ok::<T, IndexError>(trace.states[0]))
    }
    &&& forall|i: int|
        0 <= i && i + 1 < trace.states.len() ==> same_size(
            #[trigger] trace.images[i],
            trace.images[0],
        )
    &&& forall|i: int|
        0 <= i && i + 1 < trace.states.len() ==> call_ensures(
            on_img,
            (trace.states[i], i as usize, &trace.images[i]),
            Ok::<T, IndexError>(#[trigger] trace.states[i + 1]),
        )
}

/// Whether `r` is how a run that went through `trace` can have ended: with
/// the last state once every image is in, or with the error of the step that
/// failed.
pub open spec fn trace_ends<T, P, L, D, I>(
    paths: Seq<P>,
    load: L,
    on_dims: D,
    on_img: I,
    trace: BatchTrace<T>,
    r: Result<T, IndexError>,
) -> bool where
    L: Fn(&P) -> Result<RgbImage, IndexError>,
    D: Fn(&[usize; 4]) -> Result<T, IndexError>,
    I: Fn(T, usize, &RgbImage) -> Result<T, IndexError>,
 {
    let loaded = trace.images.len() as int;
    let built = trace.states.len() as int;
    match r {
        Ok(batch) => loaded == paths.len() && built == loaded + 1 && batch == trace.states[loaded],
        Err(e) => {
            ||| {
                // the next image could not be loaded
                &&& loaded < paths.len()
                &&& built == if loaded == 0 {
                    0
                } else {
                    loaded + 1
                }
                &&& call_ensures(load, (&paths[loaded],), Err::<RgbImage, IndexError>(e))
            }
            ||| {
                // the first callback refused the shape
                &&& loaded == 1
                &&& built == 0
                &&& exists|shape: [usize; 4]|
                    shape@ == batch_shape(paths.len() as int, trace.images[0]) && call_ensures(
                        on_dims,
                        (&shape,),
                        Err::<T, IndexError>(e),
                    )
            }
            ||| {
                // the last image loaded is not of the size of the first
                &&& loaded >= 2
                &&& built == loaded
                &&& !same_size(trace.images[loaded - 1], trace.images[0])
                &&& e == IndexError::DimensionMismatch
            }
            ||| {
                // the second callback refused the last image loaded
                &&& loaded >= 1
                &&& built == loaded
                &&& same_size(trace.images[loaded - 1], trace.images[0])
                &&& call_ensures(
                    on_img,
                    (trace.states[loaded - 1], (loaded - 1) as usize, &trace.images[loaded - 1]),
                    Err::<T, IndexError>(e),
                )
            }
        },
    }
}

/// Loads the images of `paths` one after another and hands them to the
/// callbacks that build a batch.
///
/// `load` turns a path into an image. The first image fixes the size of the
/// batch: `on_dims` gets the shape `[n, height, width, 3]` and makes the empty
/// batch. Then `on_img` gets the batch, the position of the image and the
/// image, for every image in order. An image whose size differs from that of
/// the first ends the run with a dimension mismatch; an error of a callback
/// ends it with that error. Nothing of a batch is returned unless every image
/// is in it.
pub fn load_batch<T, P, L, D, I>(paths: &[P], load: L, on_dims: D, on_img: I) -> (r: Result<
    T,
    IndexError,
>) where
    L: Fn(&P) -> Result<RgbImage, IndexError>,
    D: Fn(&[usize; 4]) -> Result<T, IndexError>,
    I: Fn(T, usize, &RgbImage) -> Result<T, IndexError>,

    requires
        paths@.len() > 0,
        forall|i: int| 0 <= i < paths@.len() ==> call_requires(load, (&#[trigger] paths@[i],)),
        forall|shape: &[usize; 4]| shape@[3] == 3 ==> call_requires(on_dims, (shape,)),
        forall|state: T, i: usize, img: &RgbImage|
            i < paths@.len() ==> call_requires(on_img, (state, i, img)),
    ensures
        exists|trace: BatchTrace<T>|
            trace_follows(paths@, load, on_dims, on_img, trace) && trace_ends(
                paths@,
                load,
                on_dims,
                on_img,
                trace,
                r,
            ),
{
    let n: usize = paths.len();
    let ghost mut trace: BatchTrace<T>;
    let first = match load(&paths[0]) {
        Ok(img) => img,
        Err(e) => {
            proof {
                let shape: [usize; 4] = arbitrary();
                trace = BatchTrace { images: Seq::empty(), shape, states: Seq::empty() };
                assert(trace_follows(paths@, load, on_dims, on_img, trace));
                assert(trace_ends(paths@, load, on_dims, on_img, trace, Err::<T, IndexError>(e)));
            }
            return Err(e);
        },
    };
    let (width, height) = first.dimensions();
    let shape: [usize; 4] = [n, height as usize, width as usize, 3];
    assert(shape@ =~= batch_shape(n as int, first));
    let fresh = match on_dims(&shape) {
        Ok(batch) => batch,
        Err(e) => {
            proof {
                trace = BatchTrace { images: seq![first], shape, states: Seq::empty() };
                assert(trace_follows(paths@, load, on_dims, on_img, trace));
                assert(trace_ends(paths@, load, on_dims, on_img, trace, Err::<T, IndexError>(e)));
            }
            return Err(e);
        },
    };
    proof {
        trace = BatchTrace { images: seq![first], shape, states: seq![fresh] };
    }
    let mut batch = match on_img(fresh, 0, &first) {
        Ok(batch) => batch,
        Err(e) => {
            proof {
                assert(trace_follows(paths@, load, on_dims, on_img, trace));
                assert(trace_ends(paths@, load, on_dims, on_img, trace, Err::<T, IndexError>(e)));
            }
            return Err(e);
        },
    };
    proof {
        trace = BatchTrace { images: seq![first], shape, states: seq![fresh, batch] };
        assert(trace_follows(paths@, load, on_dims, on_img, trace));
    }
    let mut i: usize = 1;
    while i < n
        invariant
            n == paths@.len(),
            1 <= i <= n,
            forall|i: int| 0 <= i < paths@.len() ==> call_requires(load, (&#[trigger] paths@[i],)),
            forall|state: T, i: usize, img: &RgbImage|
                i < paths@.len() ==> call_requires(on_img, (state, i, img)),
            trace_follows(paths@, load, on_dims, on_img, trace),
            trace.images.len() == i,
            trace.states.len() == i + 1,
            trace.states[i as int] == batch,
            trace.images[0].width == width,
            trace.images[0].height == height,
        decreases n - i,
    {
        let img = match load(&paths[i]) {
            Ok(img) => img,
            Err(e) => {
                proof {
                    assert(trace_ends(
                        paths@,
                        load,
                        on_dims,
                        on_img,
                        trace,
                        Err::<T, IndexError>(e),
                    ));
                }
                return Err(e);
            },
        };
        let ghost before = trace;
        proof {
            trace =
            BatchTrace {
                images: before.images.push(img),
                shape: before.shape,
                states: before.states,
            };
            assert forall|k: int| 0 <= k < trace.images.len() implies call_ensures(
                load,
                (&paths@[k],),
                Ok::<RgbImage, IndexError>(#[trigger] trace.images[k]),
            ) by {
                if k < i {
                    assert(trace.images[k] == before.images[k]);
                }
            }
            assert(trace.images[0] == before.images[0]);
            assert forall|k: int| 0 <= k && k + 1 < trace.states.len() implies same_size(
                #[trigger] trace.images[k],
                trace.images[0],
            ) by {
                assert(trace.images[k] == before.images[k]);
            }
            assert forall|k: int| 0 <= k && k + 1 < trace.states.len() implies call_ensures(
                on_img,
                (trace.states[k], k as usize, &trace.images[k]),
                Ok::<T, IndexError>(#[trigger] trace.states[k + 1]),
            ) by {
                assert(trace.images[k] == before.images[k]);
                assert(trace.states[k + 1] == before.states[k + 1]);
            }
            assert(trace_follows(paths@, load, on_dims, on_img, trace));
        }
        let (w, h) = img.dimensions();
        if w != width || h != height {
            proof {
                assert(trace_ends(
                    paths@,
                    load,
                    on_dims,
                    on_img,
                    trace,
                    Err::<T, IndexError>(IndexError::DimensionMismatch),
                ));
            }
            return Err(IndexError::DimensionMismatch);
        }
        batch = match on_img(batch, i, &img) {
            Ok(batch) => batch,
            Err(e) => {
                proof {
                    assert(trace_ends(
                        paths@,
                        load,
                        on_dims,
                        on_img,
                        trace,
                        Err::<T, IndexError>(e),
                    ));
                }
                return Err(e);
            },
        };
        proof {
            let grown = trace;
            trace =
            BatchTrace {
                images: grown.images,
                shape: grown.shape,
                states: grown.states.push(batch),
            };
            assert(trace.states[0] == grown.states[0]);
            assert(trace.images[i as int] == img);
            assert forall|k: int| 0 <= k && k + 1 < trace.states.len() implies call_ensures(
                on_img,
                (trace.states[k], k as usize, &trace.images[k]),
                Ok::<T, IndexError>(#[trigger] trace.states[k + 1]),
            ) by {
                if k + 1 < grown.states.len() {
                    assert(trace.states[k + 1] == grown.states[k + 1]);
                }
            }
            assert(trace_follows(paths@, load, on_dims, on_img, trace));
        }
        i += 1;
    }
    proof {
        assert(trace_ends(paths@, load, on_dims, on_img, trace, Ok::<T, IndexError>(batch)));
    }
    Ok(batch)
}

/// The buffer after each image is the buffer of the images so far.
proof fn lemma_states_packed(images: Seq<RgbImage>, states: Seq<RgbImageBatch>, k: int)
    requires
        0 <= k < states.len(),
        states.len() <= images.len() + 1,
        states[0].data@ == Seq::<u8>::empty(),
        forall|i: int|
            0 <= i && i + 1 < states.len() ==> (#[trigger] states[i + 1]).data@ == states[i].data@
                + images[i].data@ && states[i + 1].shape@ == states[i].shape@,
    ensures
        states[k].shape@ == states[0].shape@,
        states[k].data@ == packed(loaded_views(all_loaded(images)), k),
    decreases k,
{
    let items = loaded_views(all_loaded(images));
    if k > 0 {
        lemma_states_packed(images, states, k - 1);
        assert(items[k - 1] == Ok::<Pixels, IndexError>(images[k - 1]@));
        let j = k - 1;
        assert(states[j + 1].data@ == states[j].data@ + images[j].data@);
    } else {
        assert(packed(items, 0) =~= Seq::<u8>::empty());
    }
}

/// Whether the states are those of a batch that took the images one after
/// another, each of the size of the first.
spec fn states_follow(images: Seq<RgbImage>, states: Seq<RgbImageBatch>, n: int) -> bool {
    &&& states.len() <= images.len() + 1
    &&& forall|i: int| 0 <= i && i + 1 < states.len() ==> same_size(#[trigger] images[i], images[0])
    &&& states.len() > 0 ==> images.len() > 0 && states[0].shape@ == batch_shape(n, images[0])
        && states[0].data@ == Seq::<u8>::empty()
    &&& forall|i: int|
        0 <= i && i + 1 < states.len() ==> (#[trigger] states[i + 1]).data@ == states[i].data@
            + images[i].data@ && states[i + 1].shape@ == states[i].shape@
}

/// A run that took every image ends with the batch of them all, which is
/// complete where every image holds three bytes for each pixel.
proof fn lemma_run_complete(images: Seq<RgbImage>, states: Seq<RgbImageBatch>, n: int)
    requires
        n > 0,
        n <= usize::MAX,
        states_follow(images, states, n),
        images.len() == n,
        states.len() == n + 1,
    ensures
        run_result(
            loaded_views(all_loaded(images)),
            n,
            Ok::<RgbImageBatch, IndexError>(states[n]),
        ),
        (forall|i: int| 0 <= i < n ==> (#[trigger] images[i]).wf()) ==> states[n].is_complete(),
{
    let items = loaded_views(all_loaded(images));
    let batch = states[n];
    lemma_states_packed(images, states, n);
    assert forall|i: int| 0 <= i < n implies (#[trigger] items[i]) is Ok by {}
    assert forall|i: int| 0 <= i < n implies (#[trigger] items[i])->Ok_0.width
        == items[0]->Ok_0.width && items[i]->Ok_0.height == items[0]->Ok_0.height by {
        assert(same_size(images[i], images[0]));
    }
    lemma_uniform_items(items, n);
    assert(items[0] == Ok::<Pixels, IndexError>(images[0]@));
    if forall|i: int| 0 <= i < n ==> (#[trigger] images[i]).wf() {
        assert forall|i: int| 0 <= i < n implies (#[trigger] items[i])->Ok_0.data.len()
            == items[i]->Ok_0.width * items[i]->Ok_0.height * 3 by {
            assert(images[i].wf());
        }
        let h = images[0].height as int;
        let w = images[0].width as int;
        assert(batch.shape@[0] == n && batch.shape@[1] == h && batch.shape@[2] == w
            && batch.shape@[3] == 3);
        assert(n * h * w * 3 == n * (w * h * 3)) by (nonlinear_arith);
        assert(batch.data@.len() == n * (w * h * 3));
        assert(batch.data@.len() == batch.data.len());
        assert(batch.volume() == n * h * w * 3);
    }
}

/// A run whose next image could not be loaded ends with the error of the
/// load.
proof fn lemma_run_load_failed(
    images: Seq<RgbImage>,
    states: Seq<RgbImageBatch>,
    n: int,
    e: IndexError,
)
    requires
        states_follow(images, states, n),
        images.len() < n,
        states.len() == if images.len() == 0 {
            0nat
        } else {
            images.len() + 1
        },
    ensures
        run_result(
            loaded_views(all_loaded(images).push(Err::<RgbImage, IndexError>(e))),
            n,
            Err::<RgbImageBatch, IndexError>(e),
        ),
{
    let m = images.len() as int;
    let more = loaded_views(all_loaded(images).push(Err::<RgbImage, IndexError>(e)));
    assert forall|i: int| 0 <= i < m implies (#[trigger] more[i]) is Ok by {}
    assert forall|i: int| 0 <= i < m implies (#[trigger] more[i])->Ok_0.width
        == more[0]->Ok_0.width && more[i]->Ok_0.height == more[0]->Ok_0.height by {
        assert(same_size(images[i], images[0]));
    }
    lemma_uniform_items(more, m);
}

/// A run whose last image is not of the size of the first ends with a
/// dimension mismatch.
proof fn lemma_run_mismatch(images: Seq<RgbImage>, states: Seq<RgbImageBatch>, n: int)
    requires
        states_follow(images, states, n),
        2 <= images.len() <= n,
        states.len() == images.len(),
        !same_size(images[images.len() - 1], images[0]),
    ensures
        run_result(
            loaded_views(all_loaded(images)),
            n,
            Err::<RgbImageBatch, IndexError>(IndexError::DimensionMismatch),
        ),
{
    let m = images.len() as int;
    let items = loaded_views(all_loaded(images));
    assert forall|i: int| 0 <= i < m - 1 implies (#[trigger] items[i]) is Ok by {}
    assert forall|i: int| 0 <= i < m - 1 implies (#[trigger] items[i])->Ok_0.width
        == items[0]->Ok_0.width && items[i]->Ok_0.height == items[0]->Ok_0.height by {
        assert(same_size(images[i], images[0]));
    }
    lemma_uniform_items(items, m - 1);
    assert(items[m - 1] == Ok::<Pixels, IndexError>(images[m - 1]@));
    assert(items[0] == Ok::<Pixels, IndexError>(images[0]@));
}

/// Loads the images of `paths` one after another with `load` and packs them
/// into one batch of shape `[n, height, width, 3]`, the size being that of
/// the first image.
///
/// The run ends with the error of `load` at the first image that cannot be
/// loaded, and with a dimension mismatch at the first image whose size
/// differs from that of the first. No part of a batch is returned then. The
/// batch is complete where `load` gives only images that hold three bytes
/// for each pixel.
pub fn load_bhwc_rgbimagebatch_with<P, L>(paths: &[P], load: L) -> (r: Result<
    RgbImageBatch,
    IndexError,
>) where
    L: Fn(&P) -> Result<RgbImage, IndexError>,

    requires
        paths@.len() > 0,
        forall|i: int| 0 <= i < paths@.len() ==> call_requires(load, (&#[trigger] paths@[i],)),
    ensures
        exists|loaded: Seq<Result<RgbImage, IndexError>>|
            {
                &&& loaded.len() <= paths@.len()
                &&& forall|i: int|
                    0 <= i < loaded.len() ==> call_ensures(
                        load,
                        (&paths@[i],),
                        #[trigger] loaded[i],
                    )
                &&& run_result(loaded_views(loaded), paths@.len() as int, r)
            },
        (forall|i: int, img: RgbImage|
            0 <= i < paths@.len() && #[trigger] call_ensures(
                load,
                (&paths@[i],),
                Ok::<RgbImage, IndexError>(img),
            ) ==> img.wf()) ==> (r matches Ok(batch) ==> batch.is_complete()),
{
    let on_dims = |shape: &[usize; 4]| -> (out: Result<RgbImageBatch, IndexError>)
        requires
            shape@[3] == 3,
        ensures
            out matches Ok(b) && b.shape@ == shape@ && b.data@ == Seq::<u8>::empty(),
        { Ok(RgbImageBatch::new(shape.as_slice())) };
    let on_img = |batch: RgbImageBatch, _idx: usize, img: &RgbImage| -> (out: Result<
        RgbImageBatch,
        IndexError,
    >)
        ensures
            out matches Ok(b) && b.shape@ == batch.shape@ && b.data@ == batch.data@ + img.data@,
        {
            let mut grown = batch;
            grown.push_rgb_pixels(img);
            Ok(grown)
        };
    let r = load_batch(paths, load, on_dims, on_img);
    proof {
        let n = paths@.len() as int;
        assert(n == paths.len());
        let trace = choose|trace: BatchTrace<RgbImageBatch>|
            trace_follows(paths@, load, on_dims, on_img, trace) && trace_ends(
                paths@,
                load,
                on_dims,
                on_img,
                trace,
                r,
            );
        let images = trace.images;
        let states = trace.states;
        let oks = all_loaded(images);
        assert forall|i: int| 0 <= i < oks.len() implies call_ensures(
            load,
            (&paths@[i],),
            #[trigger] oks[i],
        ) by {
            assert(oks[i] == Ok::<RgbImage, IndexError>(images[i]));
        }
        assert forall|i: int| 0 <= i && i + 1 < states.len() implies (#[trigger] states[i
            + 1]).data@ == states[i].data@ + images[i].data@ && states[i + 1].shape@
            == states[i].shape@ by {
            assert(call_ensures(
                on_img,
                (states[i], i as usize, &images[i]),
                Ok::<RgbImageBatch, IndexError>(states[i + 1]),
            ));
        }
        assert(states_follow(images, states, n));
        let loaded = if r is Ok {
            oks
        } else if images.len() >= 2 && states.len() == images.len() && !same_size(
            images[images.len() - 1],
            images[0],
        ) {
            oks
        } else {
            oks.push(Err::<RgbImage, IndexError>(r->Err_0))
        };
        assert(run_result(loaded_views(loaded), n, r) && loaded.len() <= n && (loaded.len()
            > oks.len() ==> call_ensures(load, (&paths@[oks.len() as int],), loaded.last()))) by {
            if r is Ok {
                lemma_run_complete(images, states, n);
            } else {
                let e = r->Err_0;
                let m = images.len() as int;
                assert(forall|shape: [usize; 4]|
                    !call_ensures(on_dims, (&shape,), Err::<RgbImageBatch, IndexError>(e)));
                assert(forall|b: RgbImageBatch, i: usize, img: RgbImage|
                    !call_ensures(on_img, (b, i, &img), Err::<RgbImageBatch, IndexError>(e)));
                if m >= 2 && states.len() == m && !same_size(images[m - 1], images[0]) {
                    lemma_run_mismatch(images, states, n);
                } else {
                    assert(m < n);
                    assert(call_ensures(load, (&paths@[m],), Err::<RgbImage, IndexError>(e)));
                    lemma_run_load_failed(images, states, n, e);
                }
            }
        }
        assert forall|i: int| 0 <= i < loaded.len() implies call_ensures(
            load,
            (&paths@[i],),
            #[trigger] loaded[i],
        ) by {
            if i < oks.len() {
                assert(loaded[i] == oks[i]);
            }
        }
        if r is Ok && (forall|i: int, img: RgbImage|
            0 <= i < paths@.len() && #[trigger] call_ensures(
                load,
                (&paths@[i],),
                Ok::<RgbImage, IndexError>(img),
            ) ==> img.wf()) {
            assert forall|i: int| 0 <= i < n implies (#[trigger] images[i]).wf() by {
                assert(call_ensures(load, (&paths@[i],), Ok::<RgbImage, IndexError>(images[i])));
            }
            lemma_run_complete(images, states, n);
        }
    }
    r
}

/// A copy of an image.
fn copy_image(img: &RgbImage) -> (r: RgbImage)
    ensures
        r@ == img@,
        img.wf() ==> r.wf(),
{
    RgbImage { width: img.width, height: img.height, data: slice_to_vec(img.data.as_slice()) }
}

/// Packs images into one batch of shape `[n, height, width, 3]`, the size
/// being that of the first image. Fails with a dimension mismatch where an
/// image is not of the size of the first. The batch is complete where every
/// image holds three bytes for each pixel.
pub fn pack_bhwc(images: &[RgbImage]) -> (r: Result<RgbImageBatch, IndexError>)
    requires
        images@.len() > 0,
    ensures
        batch_view(r) == pack_outcome(image_items(images@)),
        (forall|i: int| 0 <= i < images@.len() ==> (#[trigger] images@[i]).wf()) ==> (r matches Ok(
            batch,
        ) ==> batch.is_complete()),
{
    let load = |img: &RgbImage| -> (out: Result<RgbImage, IndexError>)
        ensures
            out matches Ok(copy) && copy@ == img@ && (img.wf() ==> copy.wf()),
        { Ok(copy_image(img)) };
    let r = load_bhwc_rgbimagebatch_with(images, load);
    proof {
        let loaded = choose|loaded: Seq<Result<RgbImage, IndexError>>|
            {
                &&& loaded.len() <= images@.len()
                &&& forall|i: int|
                    0 <= i < loaded.len() ==> call_ensures(
                        load,
                        (&images@[i],),
                        #[trigger] loaded[i],
                    )
                &&& run_result(loaded_views(loaded), images@.len() as int, r)
            };
        let part = loaded_views(loaded);
        let full = image_items(images@);
        assert forall|i: int| 0 <= i < part.len() implies part[i] == full[i] by {
            assert(call_ensures(load, (&images@[i],), loaded[i]));
        }
        lemma_run_is_outcome(part, full, r);
    }
    r
}

/// Decodes the image files given as their bytes, in order, and packs them
/// into one batch of shape `[n, height, width, 3]`, the size being that of
/// the first image.
///
/// Fails with a decode error at the first file that cannot be decoded, and
/// with a dimension mismatch at the first image that is not of the size of
/// the first; the earlier of the two decides.
pub fn load_bhwc_rgbimagebatch(files: &[Vec<u8>]) -> (r: Result<RgbImageBatch, IndexError>)
    requires
        files@.len() > 0,
    ensures
        batch_view(r) == pack_outcome(file_outcomes(files@)),
        r matches Ok(batch) ==> batch.is_complete(),
{
    let load = |file: &Vec<u8>| -> (out: Result<RgbImage, IndexError>)
        ensures
            out matches Ok(img) ==> img.wf(),
            loaded_view(out) == file_outcome(file@),
        { load_rgbimage(file.as_slice()) };
    let r = load_bhwc_rgbimagebatch_with(files, load);
    proof {
        let loaded = choose|loaded: Seq<Result<RgbImage, IndexError>>|
            {
                &&& loaded.len() <= files@.len()
                &&& forall|i: int|
                    0 <= i < loaded.len() ==> call_ensures(
                        load,
                        (&files@[i],),
                        #[trigger] loaded[i],
                    )
                &&& run_result(loaded_views(loaded), files@.len() as int, r)
            };
        let part = loaded_views(loaded);
        let full = file_outcomes(files@);
        assert forall|i: int| 0 <= i < part.len() implies part[i] == full[i] by {
            assert(call_ensures(load, (&files@[i],), loaded[i]));
        }
        lemma_run_is_outcome(part, full, r);
    }
    r
}

} // verus!
