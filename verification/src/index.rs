//! The catalogue of one split: which image stands at which index.

use crate::batch::RgbImageBatch;
use crate::class::class_order;
pub use crate::class::{DataSet, ObjectClass};
pub use crate::contrib::{parse_contrib_index, IndexRecord};
pub use crate::dataset::Cinic10Index;
use crate::error::IndexError;
use crate::listing::{
    image_names, lemma_name_order_total, list_pngs_sorted, name_le, name_order, sorted_image_names,
};
use crate::loading::load_bhwc_rgbimagebatch_with;
use crate::packing::{file_outcome, loaded_view, loaded_views, run_result};
use crate::paths::{join_path, path_join};
use crate::pixels::{load_rgbimage, Pixels, RgbImage};
pub use crate::synset::{parse_synset_map, SynsetNode};
use crate::text::strings_view;
use vstd::prelude::*;
use vstd::relations::sorted_by;
use vstd::seq_lib::to_multiset_len;

verus! {

/// Height of an image of the dataset, in pixels.
pub const HEIGHT: usize = 32;

/// Width of an image of the dataset, in pixels.
pub const WIDTH: usize = 32;

/// Colour channels of an image.
pub const CHANNELS: usize = 3;

/// Name of the file of contributor records, in the root of the dataset.
pub const CONTRIB_FILE: &'static str = "imagenet-contributors.csv";

/// Name of the file of the synset hierarchy, in the root of the dataset.
pub const SYNSET_FILE: &'static str = "synsets-to-cifar-10-classes.txt";

/// Images of one class in one split.
pub const SAMPLES_PER_CLASS: usize = 9000;

/// Images of one split of a complete dataset.
pub const SAMPLES_PER_DATASET: usize = 90000;

/// What the directory of each class holds: the names of its entries, or
/// nothing where the directory is missing or cannot be read. The listings
/// come in the declared order of the classes.
pub open spec fn listings_view(listings: Seq<Option<Vec<String>>>) -> Seq<Option<Seq<Seq<char>>>> {
    Seq::new(
        listings.len(),
        |k: int|
            match listings[k] {
                Some(names) => Some(strings_view(names@)),
                None => None,
            },
    )
}

/// The listing of the class at position `k`, or nothing where there is none.
pub open spec fn class_listing(listings: Seq<Option<Seq<Seq<char>>>>, k: int) -> Option<
    Seq<Seq<char>>,
> {
    if 0 <= k < listings.len() {
        listings[k]
    } else {
        None
    }
}

/// Whether the listing of one of the first `k` classes is missing.
pub open spec fn any_missing(listings: Seq<Option<Seq<Seq<char>>>>, k: int) -> bool {
    exists|c: int| 0 <= c < k && (#[trigger] class_listing(listings, c)) is None
}

/// `names`, each with `class` beside it.
pub open spec fn tagged(class: ObjectClass, names: Seq<Seq<char>>) -> Seq<
    (ObjectClass, Seq<char>),
> {
    Seq::new(names.len(), |i: int| (class, names[i]))
}

/// The entries of the class at position `k`: its image files in sorted
/// order.
pub open spec fn class_entries(listings: Seq<Option<Seq<Seq<char>>>>, k: int) -> Seq<
    (ObjectClass, Seq<char>),
> {
    match class_listing(listings, k) {
        Some(names) => tagged(class_order()[k], sorted_image_names(names)),
        None => Seq::empty(),
    }
}

/// The entries of the first `k` classes, class after class.
pub open spec fn catalogue_upto(listings: Seq<Option<Seq<Seq<char>>>>, k: int) -> Seq<
    (ObjectClass, Seq<char>),
>
    decreases k,
{
    if k <= 0 {
        Seq::empty()
    } else {
        catalogue_upto(listings, k - 1) + class_entries(listings, k - 1)
    }
}

/// How many image files the listings of the first `k` classes name.
pub open spec fn image_count(listings: Seq<Option<Seq<Seq<char>>>>, k: int) -> int
    decreases k,
{
    if k <= 0 {
        0
    } else {
        image_count(listings, k - 1) + match class_listing(listings, k - 1) {
            Some(names) => image_names(names).len() as int,
            None => 0,
        }
    }
}

/// What the listings of a split make: the catalogue, a directory error where
/// the listing of a class is missing, or else a count mismatch where the
/// images are not as many as a complete split holds.
pub open spec fn index_outcome(listings: Seq<Option<Seq<Seq<char>>>>) -> Result<
    Seq<(ObjectClass, Seq<char>)>,
    IndexError,
> {
    let all = catalogue_upto(listings, ObjectClass::COUNT as int);
    if any_missing(listings, ObjectClass::COUNT as int) {
        Err(IndexError::DirectoryError)
    } else if all.len() != SAMPLES_PER_DATASET {
        Err(IndexError::CountMismatch)
    } else {
        Ok(all)
    }
}

/// Whether the entries stand class after class in the declared order.
pub open spec fn grouped_by_class(items: Seq<(ObjectClass, Seq<char>)>) -> bool {
    forall|i: int, j: int|
        0 <= i < j < items.len() ==> (#[trigger] items[i]).0.ordinal() <= (
        #[trigger] items[j]).0.ordinal()
}

/// Whether the entries of each class stand in the order of names.
pub open spec fn sorted_in_class(items: Seq<(ObjectClass, Seq<char>)>) -> bool {
    forall|i: int, j: int|
        0 <= i < j < items.len() && (#[trigger] items[i]).0 == (#[trigger] items[j]).0 ==> name_le(
            items[i].1,
            items[j].1,
        )
}

/// The mathematical value of a split's catalogue.
pub struct DatasetIndexView {
    /// The directory of the split.
    pub root: Seq<char>,
    /// Class and file name of each image, by index.
    pub items: Seq<(ObjectClass, Seq<char>)>,
}

/// The path of the image at index `i`: the directory of the split, then the
/// label of the class, then the file name.
pub open spec fn entry_path(index: DatasetIndexView, i: int) -> Seq<char> {
    path_join(path_join(index.root, index.items[i].0.spec_name()), index.items[i].1)
}

/// The classes of the images at `indices`, one for one.
pub open spec fn classes_of(index: DatasetIndexView, indices: Seq<usize>) -> Seq<ObjectClass> {
    Seq::new(indices.len(), |k: int| index.items[indices[k] as int].0)
}

/// The paths of the images at `indices`, one for one.
pub open spec fn paths_of(index: DatasetIndexView, indices: Seq<usize>) -> Seq<Seq<char>> {
    Seq::new(indices.len(), |k: int| entry_path(index, indices[k] as int))
}

/// What loading the image of a file gives, where fetching the file gave
/// `file`: a decode error where there is no file, else what its bytes decode
/// to.
pub open spec fn fetched_outcome(file: Option<Vec<u8>>) -> Result<Pixels, IndexError> {
    match file {
        Some(bytes) => file_outcome(bytes@),
        None => Err(IndexError::DecodeError),
    }
}

/// What loading the image of each file gives.
pub open spec fn fetched_outcomes(files: Seq<Option<Vec<u8>>>) -> Seq<Result<Pixels, IndexError>> {
    Seq::new(files.len(), |i: int| fetched_outcome(files[i]))
}

/// The catalogue of one split of the dataset.
#[derive(Debug, Clone)]
pub struct DatasetIndex {
    ds_path: String,
    items: Vec<(ObjectClass, String)>,
}

/// Class and file name of each entry, the names as character sequences.
pub open spec fn items_view(items: Seq<(ObjectClass, String)>) -> Seq<(ObjectClass, Seq<char>)> {
    Seq::new(items.len(), |i: int| (items[i].0, items[i].1@))
}

impl View for DatasetIndex {
    type V = DatasetIndexView;

    closed spec fn view(&self) -> DatasetIndexView {
        DatasetIndexView { root: self.ds_path@, items: items_view(self.items@) }
    }
}

/// All entries of the first `k` classes belong to one of them.
proof fn lemma_catalogue_classes(listings: Seq<Option<Seq<Seq<char>>>>, k: int)
    requires
        0 <= k <= ObjectClass::COUNT,
    ensures
        forall|i: int|
            0 <= i < catalogue_upto(listings, k).len() ==> (#[trigger] catalogue_upto(
                listings,
                k,
            )[i]).0.ordinal() < k,
        grouped_by_class(catalogue_upto(listings, k)),
        sorted_in_class(catalogue_upto(listings, k)),
    decreases k,
{
    if k > 0 {
        lemma_catalogue_classes(listings, k - 1);
        let before = catalogue_upto(listings, k - 1);
        let block = class_entries(listings, k - 1);
        let all = catalogue_upto(listings, k);
        assert(class_order()[k - 1].ordinal() == k - 1);
        assert forall|i: int| 0 <= i < all.len() implies (#[trigger] all[i]).0.ordinal() < k by {
            if i >= before.len() {
                assert(all[i] == block[i - before.len()]);
            } else {
                assert(all[i] == before[i]);
            }
        }
        match class_listing(listings, k - 1) {
            Some(names) => {
                lemma_name_order_total();
                image_names(names).lemma_sort_by_ensures(name_order());
                let sorted = sorted_image_names(names);
                assert(sorted_by(sorted, name_order()));
                assert forall|i: int, j: int|
                    0 <= i < j < all.len() && (#[trigger] all[i]).0 == (
                    #[trigger] all[j]).0 implies name_le(
                    all[i].1,
                    all[j].1,
                ) by {
                    if i >= before.len() {
                        assert(all[i] == block[i - before.len()]);
                        assert(all[j] == block[j - before.len()]);
                        assert(name_order()(sorted[i - before.len()], sorted[j - before.len()]));
                    } else if j >= before.len() {
                        assert(all[i] == before[i]);
                        assert(all[j] == block[j - before.len()]);
                    } else {
                        assert(all[i] == before[i]);
                        assert(all[j] == before[j]);
                    }
                }
            },
            None => {
                assert(all =~= before);
            },
        }
        assert forall|i: int, j: int| 0 <= i < j < all.len() implies (#[trigger] all[i]).0.ordinal()
            <= (#[trigger] all[j]).0.ordinal() by {
            if j >= before.len() {
                assert(all[j] == block[j - before.len()]);
            } else {
                assert(all[i] == before[i]);
                assert(all[j] == before[j]);
            }
        }
    }
}

/// A catalogue made from listings stands class after class in the declared
/// order, and inside each class in the order of names.
pub proof fn lemma_catalogue_order(listings: Seq<Option<Seq<Seq<char>>>>)
    ensures
        grouped_by_class(catalogue_upto(listings, ObjectClass::COUNT as int)),
        sorted_in_class(catalogue_upto(listings, ObjectClass::COUNT as int)),
{
    lemma_catalogue_classes(listings, ObjectClass::COUNT as int);
}

/// The catalogue of the first `k` classes has one entry for each image file
/// that their listings name.
proof fn lemma_catalogue_len(listings: Seq<Option<Seq<Seq<char>>>>, k: int)
    requires
        0 <= k,
    ensures
        catalogue_upto(listings, k).len() == image_count(listings, k),
    decreases k,
{
    if k > 0 {
        lemma_catalogue_len(listings, k - 1);
        match class_listing(listings, k - 1) {
            Some(names) => {
                lemma_name_order_total();
                image_names(names).lemma_sort_by_ensures(name_order());
                to_multiset_len(image_names(names));
                to_multiset_len(sorted_image_names(names));
            },
            None => {},
        }
    }
}

/// A split is catalogued exactly where every class directory is listed and
/// the image files in them number what a complete split holds; the catalogue
/// then has one entry for each of them.
pub proof fn lemma_complete_split(listings: Seq<Option<Seq<Seq<char>>>>)
    ensures
        index_outcome(listings) is Ok <==> !any_missing(listings, ObjectClass::COUNT as int)
            && image_count(listings, ObjectClass::COUNT as int) == SAMPLES_PER_DATASET,
        index_outcome(listings) matches Ok(items) ==> items.len() == SAMPLES_PER_DATASET,
{
    lemma_catalogue_len(listings, ObjectClass::COUNT as int);
}

/// Listings that name one image file fewer than those of a complete split
/// are refused with a count mismatch.
pub proof fn lemma_one_image_short_fails(
    complete: Seq<Option<Seq<Seq<char>>>>,
    short: Seq<Option<Seq<Seq<char>>>>,
)
    requires
        index_outcome(complete) is Ok,
        !any_missing(short, ObjectClass::COUNT as int),
        image_count(short, ObjectClass::COUNT as int) == image_count(
            complete,
            ObjectClass::COUNT as int,
        ) - 1,
    ensures
        index_outcome(short) == Err::<Seq<(ObjectClass, Seq<char>)>, IndexError>(
            IndexError::CountMismatch,
        ),
{
    lemma_complete_split(complete);
    lemma_complete_split(short);
}

/// Paths follow their indices one for one: the paths of two runs of indices
/// are the paths of the first, then those of the second, so that neither
/// order nor repetition is lost.
pub proof fn lemma_paths_follow_indices(index: DatasetIndexView, a: Seq<usize>, b: Seq<usize>)
    ensures
        paths_of(index, a + b) == paths_of(index, a) + paths_of(index, b),
        forall|i: usize| #[trigger] paths_of(index, seq![i]) == seq![entry_path(index, i as int)],
{
    assert(paths_of(index, a + b) =~= paths_of(index, a) + paths_of(index, b));
    assert forall|i: usize| #[trigger]
        paths_of(index, seq![i]) == seq![entry_path(index, i as int)] by {
        assert(paths_of(index, seq![i]) =~= seq![entry_path(index, i as int)]);
    }
}

/// Asking for one index twice, with another between, gives the first path,
/// the other path, and the first path again.
pub proof fn lemma_paths_keep_repeats(index: DatasetIndexView, i: usize, j: usize)
    ensures
        paths_of(index, seq![i, j, i]) == seq![
            entry_path(index, i as int),
            entry_path(index, j as int),
            entry_path(index, i as int),
        ],
{
    assert(paths_of(index, seq![i, j, i]) =~= seq![
        entry_path(index, i as int),
        entry_path(index, j as int),
        entry_path(index, i as int),
    ]);
}

impl DatasetIndex {
    /// Whether the catalogue is that of a complete split: it holds as many
    /// entries as a complete split has images, class after class in the
    /// declared order, and inside each class in the order of names.
    pub open spec fn wf(&self) -> bool {
        &&& self@.items.len() == SAMPLES_PER_DATASET
        &&& grouped_by_class(self@.items)
        &&& sorted_in_class(self@.items)
    }

    /// Builds the catalogue of the split in directory `ds_path` from the
    /// listings of its class directories, which come in the declared order of
    /// the classes. A class for which there is no listing counts as missing;
    /// listings beyond the last class are not looked at.
    pub fn load_index_from_dir(ds_path: &str, listings: &Vec<Option<Vec<String>>>) -> (r: Result<
        DatasetIndex,
        IndexError,
    >)
        ensures
            match r {
                Ok(index) => index.wf() && index@.root == ds_path@ && index_outcome(
                    listings_view(listings@),
                ) == Ok::<_, IndexError>(index@.items),
                Err(e) => index_outcome(listings_view(listings@)) == Err::<
                    Seq<(ObjectClass, Seq<char>)>,
                    _,
                >(e),
            },
    {
        let ghost all = listings_view(listings@);
        let classes = ObjectClass::all();
        let mut items: Vec<(ObjectClass, String)> = Vec::new();
        let mut k: usize = 0;
        while k < ObjectClass::COUNT
            invariant
                all == listings_view(listings@),
                classes@ == class_order(),
                k <= ObjectClass::COUNT,
                !any_missing(all, k as int),
                items_view(items@) == catalogue_upto(all, k as int),
            decreases ObjectClass::COUNT - k,
        {
            if k >= listings.len() {
                assert(class_listing(all, k as int) is None);
                return Err(IndexError::DirectoryError);
            }
            let class = classes[k];
            match &listings[k] {
                None => {
                    assert(class_listing(all, k as int) is None);
                    return Err(IndexError::DirectoryError);
                },
                Some(entries) => {
                    let names = list_pngs_sorted(entries);
                    let ghost before = items_view(items@);
                    let ghost block = class_entries(all, k as int);
                    assert(class_listing(all, k as int) == Some(strings_view(entries@)));
                    assert(items_view(items@) =~= before + block.subrange(0, 0));
                    let mut i: usize = 0;
                    while i < names.len()
                        invariant
                            i <= names@.len(),
                            block == tagged(class, strings_view(names@)),
                            items_view(items@) == before + block.subrange(0, i as int),
                        decreases names@.len() - i,
                    {
                        let ghost sofar = items_view(items@);
                        let name = names[i].clone();
                        items.push((class, name));
                        proof {
                            assert(items_view(items@) =~= sofar.push((class, name@)));
                            assert(block[i as int] == (class, name@));
                            assert(block.subrange(0, i + 1) =~= block.subrange(0, i as int).push(
                                block[i as int],
                            ));
                            assert(items_view(items@) =~= before + block.subrange(0, i + 1));
                        }
                        i += 1;
                    }
                    assert(block.subrange(0, i as int) =~= block);
                },
            }
            assert(class_listing(all, k as int) is Some);
            k += 1;
        }
        if items.len() != SAMPLES_PER_DATASET {
            return Err(IndexError::CountMismatch);
        }
        proof {
            lemma_catalogue_order(all);
        }
        Ok(DatasetIndex { ds_path: ds_path.to_owned(), items })
    }

    /// The directory of the split.
    pub fn ds_path(&self) -> (r: &str)
        ensures
            r@ == self@.root,
    {
        self.ds_path.as_str()
    }

    /// Number of images in the catalogue.
    pub fn len(&self) -> (r: usize)
        ensures
            r == self@.items.len(),
    {
        self.items.len()
    }

    /// Whether the catalogue holds no image.
    pub fn is_empty(&self) -> (r: bool)
        ensures
            r == (self@.items.len() == 0),
    {
        self.items.len() == 0
    }

    /// The class of the image at `index`.
    pub fn index_to_class(&self, index: usize) -> (r: ObjectClass)
        requires
            index < self@.items.len(),
        ensures
            r == self@.items[index as int].0,
    {
        self.items[index].0
    }

    /// The classes of the images at `indices`, in the order of the indices.
    pub fn indices_to_classes(&self, indices: &[usize]) -> (r: Vec<ObjectClass>)
        requires
            forall|k: int| 0 <= k < indices@.len() ==> indices@[k] < self@.items.len(),
        ensures
            r@ == classes_of(self@, indices@),
    {
        let mut out: Vec<ObjectClass> = Vec::new();
        let mut k: usize = 0;
        while k < indices.len()
            invariant
                k <= indices@.len(),
                forall|k: int| 0 <= k < indices@.len() ==> indices@[k] < self@.items.len(),
                out@ == classes_of(self@, indices@.take(k as int)),
            decreases indices@.len() - k,
        {
            out.push(self.index_to_class(indices[k]));
            assert(out@ =~= classes_of(self@, indices@.take(k + 1)));
            k += 1;
        }
        assert(indices@.take(k as int) =~= indices@);
        out
    }

    /// The path of the image at `index`.
    pub fn index_to_path(&self, index: usize) -> (r: String)
        requires
            index < self@.items.len(),
        ensures
            r@ == entry_path(self@, index as int),
    {
        let class_dir = join_path(self.ds_path.as_str(), self.items[index].0.name());
        join_path(class_dir.as_str(), self.items[index].1.as_str())
    }

    /// The paths of the images at `indices`, in the order of the indices.
    pub fn indices_to_paths(&self, indices: &[usize]) -> (r: Vec<String>)
        requires
            forall|k: int| 0 <= k < indices@.len() ==> indices@[k] < self@.items.len(),
        ensures
            strings_view(r@) == paths_of(self@, indices@),
    {
        let mut out: Vec<String> = Vec::new();
        let mut k: usize = 0;
        assert(strings_view(out@) =~= paths_of(self@, indices@.take(0)));
        while k < indices.len()
            invariant
                k <= indices@.len(),
                forall|k: int| 0 <= k < indices@.len() ==> indices@[k] < self@.items.len(),
                strings_view(out@) == paths_of(self@, indices@.take(k as int)),
            decreases indices@.len() - k,
        {
            let ghost sofar = strings_view(out@);
            let path = self.index_to_path(indices[k]);
            out.push(path);
            proof {
                assert(strings_view(out@) =~= sofar.push(path@));
                assert(paths_of(self@, indices@.take(k + 1)) =~= paths_of(
                    self@,
                    indices@.take(k as int),
                ).push(entry_path(self@, indices@[k as int] as int)));
            }
            k += 1;
        }
        assert(indices@.take(k as int) =~= indices@);
        out
    }

    /// Loads the images at `indices` into one batch, in the order of the
    /// indices. `fetch` hands out the bytes of the file at a path, or nothing
    /// where the file cannot be read.
    ///
    /// The files are fetched and decoded one after another. The run ends with
    /// a decode error at the first file that cannot be read or decoded, and
    /// with a dimension mismatch at the first image that is not of the size
    /// of the first.
    pub fn load_rgbimagebatch<F>(&self, indices: &[usize], fetch: F) -> (r: Result<
        RgbImageBatch,
        IndexError,
    >) where F: Fn(&String) -> Option<Vec<u8>>
        requires
            indices@.len() > 0,
            forall|k: int| 0 <= k < indices@.len() ==> indices@[k] < self@.items.len(),
            forall|path: &String| call_requires(fetch, (path,)),
        ensures
            exists|paths: Seq<String>, files: Seq<Option<Vec<u8>>>|
                {
                    &&& strings_view(paths) == paths_of(self@, indices@)
                    &&& files.len() <= paths.len()
                    &&& forall|i: int|
                        0 <= i < files.len() ==> call_ensures(
                            fetch,
                            (&paths[i],),
                            #[trigger] files[i],
                        )
                    &&& run_result(fetched_outcomes(files), indices@.len() as int, r)
                },
            r matches Ok(batch) ==> batch.is_complete(),
    {
        let paths = self.indices_to_paths(indices);
        let source = &fetch;
        let load = |path: &String| -> (out: Result<RgbImage, IndexError>)
            ensures
                out matches Ok(img) ==> img.wf(),
                exists|file: Option<Vec<u8>>|
                    call_ensures(source, (path,), file) && loaded_view(out) == fetched_outcome(
                        file,
                    ),
            {
                let file = source(path);
                let out = match &file {
                    Some(bytes) => load_rgbimage(bytes.as_slice()),
                    None => Err(IndexError::DecodeError),
                };
                assert(call_ensures(source, (path,), file) && loaded_view(out) == fetched_outcome(
                    file,
                ));
                out
            };
        assert(paths@.len() == strings_view(paths@).len());
        let r = load_bhwc_rgbimagebatch_with(paths.as_slice(), load);
        proof {
            let loaded = choose|loaded: Seq<Result<RgbImage, IndexError>>|
                {
                    &&& loaded.len() <= paths@.len()
                    &&& forall|i: int|
                        0 <= i < loaded.len() ==> call_ensures(
                            load,
                            (&paths@[i],),
                            #[trigger] loaded[i],
                        )
                    &&& run_result(loaded_views(loaded), paths@.len() as int, r)
                };
            assert(forall|path: &String, file: Option<Vec<u8>>|
                call_ensures(source, (path,), file) ==> call_ensures(fetch, (path,), file));
            let files = Seq::new(
                loaded.len(),
                |i: int|
                    choose|file: Option<Vec<u8>>|
                        call_ensures(fetch, (&paths@[i],), file) && loaded_view(loaded[i])
                            == fetched_outcome(file),
            );
            assert forall|i: int| 0 <= i < files.len() implies call_ensures(
                fetch,
                (&paths@[i],),
                #[trigger] files[i],
            ) && loaded_view(loaded[i]) == fetched_outcome(files[i]) by {
                assert(call_ensures(load, (&paths@[i],), loaded[i]));
            }
            assert(fetched_outcomes(files) =~= loaded_views(loaded));
            assert(run_result(fetched_outcomes(files), indices@.len() as int, r));
        }
        r
    }
}

} // verus!
