//! The whole dataset: contributor records, synset hierarchy and the
//! catalogues of the three splits.

use crate::class::DataSet;
use crate::contrib::{
    contrib_outcome, csv_rows, parse_contrib_index, records_view, IndexRecord, IndexRecordView,
};
use crate::error::IndexError;
use crate::hierarchy::{synset_outcome, SynsetNodeView};
use crate::index::{index_outcome, listings_view, DatasetIndex, DatasetIndexView};
use crate::paths::{join_path, path_join};
use crate::synset::parse_synset_map;
use crate::synset_map::SynsetMap;
use vstd::prelude::*;

verus! {

/// What the root directory of the dataset holds, read into memory. A file or
/// a listing that could not be read is absent.
#[derive(Debug, Clone)]
pub struct DatasetFiles {
    /// The bytes of the contributor file.
    pub contributors: Option<Vec<u8>>,
    /// The text of the synset hierarchy file.
    pub synsets: Option<String>,
    /// The entries of the class directories of the training split, in the
    /// declared order of the classes.
    pub train: Vec<Option<Vec<String>>>,
    /// The same for the test split.
    pub test: Vec<Option<Vec<String>>>,
    /// The same for the validation split.
    pub valid: Vec<Option<Vec<String>>>,
}

/// The mathematical value of the whole index.
pub struct Cinic10IndexView {
    pub root: Seq<char>,
    pub imagenet_contrib: Seq<IndexRecordView>,
    pub synset_map: Map<Seq<char>, SynsetNodeView>,
    pub train: DatasetIndexView,
    pub test: DatasetIndexView,
    pub valid: DatasetIndexView,
}

/// The index of the CINIC-10 dataset.
#[derive(Debug, Clone)]
pub struct Cinic10Index {
    /// The root directory of the dataset.
    pub root: String,
    /// The records of the contributor file, in the order of its rows.
    pub imagenet_contrib: Vec<IndexRecord>,
    /// The synset hierarchy.
    pub synset_map: SynsetMap,
    /// The catalogue of the training split.
    pub train: DatasetIndex,
    /// The catalogue of the test split.
    pub test: DatasetIndex,
    /// The catalogue of the validation split.
    pub valid: DatasetIndex,
}

impl View for Cinic10Index {
    type V = Cinic10IndexView;

    open spec fn view(&self) -> Cinic10IndexView {
        Cinic10IndexView {
            root: self.root@,
            imagenet_contrib: records_view(self.imagenet_contrib@),
            synset_map: self.synset_map@,
            train: self.train@,
            test: self.test@,
            valid: self.valid@,
        }
    }
}

/// The catalogue of one split, or the error that its listings give.
pub open spec fn split_outcome(
    root: Seq<char>,
    split: DataSet,
    listings: Seq<Option<Vec<String>>>,
) -> Result<DatasetIndexView, IndexError> {
    match index_outcome(listings_view(listings)) {
        Ok(items) => Ok(DatasetIndexView { root: path_join(root, split.spec_name()), items }),
        Err(e) => Err(e),
    }
}

/// What building the index from the files of `root` gives. The parts are
/// taken in order: contributor records, synset hierarchy, then the training,
/// test and validation splits. The first part that fails decides the error; a
/// file that is absent is a directory error.
pub open spec fn dataset_outcome(root: Seq<char>, files: DatasetFiles) -> Result<
    Cinic10IndexView,
    IndexError,
> {
    if files.contributors is None {
        Err(IndexError::DirectoryError)
    } else if contrib_outcome(csv_rows(files.contributors->0@)) is Err {
        Err(contrib_outcome(csv_rows(files.contributors->0@))->Err_0)
    } else if files.synsets is None {
        Err(IndexError::DirectoryError)
    } else if synset_outcome(files.synsets->0@) is Err {
        Err(synset_outcome(files.synsets->0@)->Err_0)
    } else if split_outcome(root, DataSet::Train, files.train@) is Err {
        Err(split_outcome(root, DataSet::Train, files.train@)->Err_0)
    } else if split_outcome(root, DataSet::Test, files.test@) is Err {
        Err(split_outcome(root, DataSet::Test, files.test@)->Err_0)
    } else if split_outcome(root, DataSet::Valid, files.valid@) is Err {
        Err(split_outcome(root, DataSet::Valid, files.valid@)->Err_0)
    } else {
        Ok(
            Cinic10IndexView {
                root,
                imagenet_contrib: contrib_outcome(csv_rows(files.contributors->0@))->Ok_0,
                synset_map: synset_outcome(files.synsets->0@)->Ok_0,
                train: split_outcome(root, DataSet::Train, files.train@)->Ok_0,
                test: split_outcome(root, DataSet::Test, files.test@)->Ok_0,
                valid: split_outcome(root, DataSet::Valid, files.valid@)->Ok_0,
            },
        )
    }
}

impl Cinic10Index {
    /// Whether every part of the index is well formed.
    pub open spec fn wf(&self) -> bool {
        &&& self.synset_map.wf()
        &&& self.train.wf()
        &&& self.test.wf()
        &&& self.valid.wf()
    }

    /// Builds the catalogue of one split below `root`.
    fn load_split(root: &str, split: DataSet, listings: &Vec<Option<Vec<String>>>) -> (r: Result<
        DatasetIndex,
        IndexError,
    >)
        ensures
            match r {
                Ok(index) => index.wf() && split_outcome(root@, split, listings@) == Ok::<
                    _,
                    IndexError,
                >(index@),
                Err(e) => split_outcome(root@, split, listings@) == Err::<DatasetIndexView, _>(e),
            },
    {
        let dir = join_path(root, split.name());
        DatasetIndex::load_index_from_dir(dir.as_str(), listings)
    }

    /// Builds the index of the dataset in directory `root` from what the
    /// directory holds. Either every part is there and well formed, or no
    /// index is returned.
    pub fn new_from_dir(root: &str, files: &DatasetFiles) -> (r: Result<Cinic10Index, IndexError>)
        ensures
            match r {
                Ok(index) => index.wf() && dataset_outcome(root@, *files) == Ok::<_, IndexError>(
                    index@,
                ),
                Err(e) => dataset_outcome(root@, *files) == Err::<Cinic10IndexView, _>(e),
            },
    {
        let imagenet_contrib = match &files.contributors {
            Some(bytes) => match parse_contrib_index(bytes.as_slice()) {
                Ok(records) => records,
                Err(e) => {
                    return Err(e);
                },
            },
            None => {
                return Err(IndexError::DirectoryError);
            },
        };
        let synset_map = match &files.synsets {
            Some(text) => match parse_synset_map(text.as_str()) {
                Ok(map) => map,
                Err(e) => {
                    return Err(e);
                },
            },
            None => {
                return Err(IndexError::DirectoryError);
            },
        };
        let train = match Cinic10Index::load_split(root, DataSet::Train, &files.train) {
            Ok(index) => index,
            Err(e) => {
                return Err(e);
            },
        };
        let test = match Cinic10Index::load_split(root, DataSet::Test, &files.test) {
            Ok(index) => index,
            Err(e) => {
                return Err(e);
            },
        };
        let valid = match Cinic10Index::load_split(root, DataSet::Valid, &files.valid) {
            Ok(index) => index,
            Err(e) => {
                return Err(e);
            },
        };
        Ok(Cinic10Index { root: root.to_owned(), imagenet_contrib, synset_map, train, test, valid })
    }
}

} // verus!
