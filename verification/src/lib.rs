//! Index of the CINIC-10 image dataset: class labels, the synset hierarchy,
//! per-split catalogues of image files, and dense pixel batches.
//!
//! The crate works on values in memory. Whoever uses it reads the files and
//! lists the directories, and hands over text, bytes and file names.
//!
//! # Modules
//!
//! - [`class`]: the ten classes and the three splits, with their labels.
//! - [`hierarchy`]: what a synset hierarchy text means, as a model on
//!   characters, and the laws of that model.
//! - [`synset`], [`synset_map`]: the parser of the hierarchy and the store of
//!   its nodes.
//! - [`contrib`]: the contributor records and their comma-separated file.
//! - [`listing`]: which files are images and how their names are ordered.
//! - [`index`]: the catalogue of one split, from index to class and path.
//! - [`pixels`], [`batch`], [`packing`], [`loading`]: decoded images, the
//!   batch buffer, what packing gives, and the loop that loads a batch;
//!   [`images`] gathers their public items.
//! - [`dataset`]: the index of the whole dataset.
//! - [`config`]: the rule for the default directory.
//! - [`text`], [`paths`], [`error`]: helpers on characters and paths, and the
//!   error type.
//!
//! # What the proofs rest on
//!
//! Every function is verified against its contract, but for four that call
//! code outside this crate and whose contracts are taken on trust:
//!
//! - `text::string_from_chars` collects characters into a `String`;
//! - `pixels::decode_png_rgb8` decodes a PNG file with the `image` crate;
//! - `contrib::read_rows` reads the rows of a file with the `csv` crate;
//! - `contrib::read_row` reads the fields of one row with the `csv` crate.
//!
//! What the last three return is not described but named: `decoded_png`,
//! `csv_rows`, `row_values` and `record_fields` stand for what the outside
//! code computes, and the contracts of this crate say exactly what is made of
//! it.

pub mod batch;
pub mod class;
pub mod config;
pub mod contrib;
pub mod dataset;
pub mod error;
pub mod hierarchy;
pub mod images;
pub mod index;
pub mod listing;
pub mod loading;
pub mod packing;
pub mod paths;
pub mod pixels;
pub mod synset;
pub mod synset_map;
pub mod text;

pub use config::{
    default_data_path_or_panic, get_default_data_path, set_default_data_path, CINC10_PATH_ENV_VAR,
};
pub use dataset::Cinic10Index;
