//! The records of the images that ImageNet contributed, read from their
//! comma-separated file.

use crate::class::{class_named, data_set_named, DataSet, ObjectClass};
use crate::error::IndexError;
use vstd::prelude::*;

verus! {

/// One record of the contributor file: which ImageNet image went into which
/// split under which class.
#[derive(Debug, Clone, PartialEq, Eq, Hash)]
pub struct IndexRecord {
    /// Identifier of the synset that the image belongs to.
    pub synset: String,
    /// Number of the image in its synset.
    pub image_num: usize,
    /// The split that the image went into.
    pub data_set: DataSet,
    /// The class that the image was filed under.
    pub class: ObjectClass,
}

/// The mathematical value of a record.
pub struct IndexRecordView {
    pub synset: Seq<char>,
    pub image_num: nat,
    pub data_set: DataSet,
    pub class: ObjectClass,
}

impl View for IndexRecord {
    type V = IndexRecordView;

    open spec fn view(&self) -> IndexRecordView {
        IndexRecordView {
            synset: self.synset@,
            image_num: self.image_num as nat,
            data_set: self.data_set,
            class: self.class,
        }
    }
}

/// The records of a sequence, as mathematical values.
pub open spec fn records_view(records: Seq<IndexRecord>) -> Seq<IndexRecordView> {
    Seq::new(records.len(), |i: int| records[i]@)
}

/// The record that four column values make: the synset, the image number, the
/// label of the split and the label of the class. A label that names no split
/// or no class is a parse error.
pub open spec fn record_of(values: (Seq<char>, nat, Seq<char>, Seq<char>)) -> Result<
    IndexRecordView,
    IndexError,
> {
    match (data_set_named(values.2), class_named(values.3)) {
        (Some(data_set), Some(class)) => Ok(
            IndexRecordView { synset: values.0, image_num: values.1, data_set, class },
        ),
        _ => Err(IndexError::ParseError),
    }
}

/// The record that a row makes, `values` being what its columns read as, or
/// nothing where they cannot be read.
pub open spec fn row_outcome(values: Option<(Seq<char>, nat, Seq<char>, Seq<char>)>) -> Result<
    IndexRecordView,
    IndexError,
> {
    match values {
        Some(v) => record_of(v),
        None => Err(IndexError::ParseError),
    }
}

#[verifier::external_type_specification]
#[verifier::external_body]
pub struct ExStringRecord(csv::StringRecord);

#[verifier::external_type_specification]
#[verifier::external_body]
pub struct ExCsvError(csv::Error);

/// The fields of a row, in order.
pub uninterp spec fn record_fields(row: csv::StringRecord) -> Seq<Seq<char>>;

/// What the first four fields of a row read as: a string, an unsigned
/// number, and two more strings; nothing where the row is too short or the
/// second field is no number.
pub uninterp spec fn row_values(fields: Seq<Seq<char>>) -> Option<
    (Seq<char>, nat, Seq<char>, Seq<char>),
>;

/// The rows of a comma-separated file after its header row, each as its
/// fields without the white space around them; nothing where the bytes are no
/// such file or a row differs in length from the header.
pub uninterp spec fn csv_rows(data: Seq<u8>) -> Option<Seq<Seq<Seq<char>>>>;

/// Reads the first four fields of a row as a string, a number and two
/// strings.
///
/// Calls `csv::StringRecord::deserialize` without headers, for a tuple.
/// Trusted: the outcome depends on the fields of the row alone.
#[verifier::external_body]
fn read_row(row: &csv::StringRecord) -> (r: Result<(String, usize, String, String), csv::Error>)
    ensures
        match r {
            Ok(v) => row_values(record_fields(*row)) == Some((v.0@, v.1 as nat, v.2@, v.3@)),
            Err(_) => row_values(record_fields(*row)) is None,
        },
{
    row.deserialize(None)
}

/// Reads the rows of a comma-separated file held in memory.
///
/// Calls `csv::ReaderBuilder` for a reader with a header row, rows of one
/// length and trimmed fields, and collects `csv::Reader::into_records`.
/// Trusted: the outcome depends on the bytes alone.
#[verifier::external_body]
fn read_rows(data: &[u8]) -> (r: Result<Vec<csv::StringRecord>, csv::Error>)
    ensures
        match r {
            Ok(rows) => csv_rows(data@) == Some(
                Seq::new(rows@.len(), |i: int| record_fields(rows@[i])),
            ),
            Err(_) => csv_rows(data@) is None,
        },
{
    csv::ReaderBuilder::new()
        .has_headers(true)
        .flexible(false)
        .trim(csv::Trim::All)
        .from_reader(data)
        .into_records()
        .collect()
}

impl IndexRecord {
    /// Makes a record of four column values. Fails with a parse error where
    /// `data_set` is no label of a split or `class` no label of a class.
    pub fn from_values(synset: String, image_num: usize, data_set: &str, class: &str) -> (r: Result<
        IndexRecord,
        IndexError,
    >)
        ensures
            match r {
                Ok(record) => Ok::<IndexRecordView, IndexError>(record@),
                Err(e) => Err(e),
            } == record_of((synset@, image_num as nat, data_set@, class@)),
    {
        let data_set = match DataSet::from_str(data_set) {
            Ok(d) => d,
            Err(_) => {
                return Err(IndexError::ParseError);
            },
        };
        let class = match ObjectClass::from_str(class) {
            Ok(c) => c,
            Err(_) => {
                return Err(IndexError::ParseError);
            },
        };
        Ok(IndexRecord { synset, image_num, data_set, class })
    }

    /// Makes a record of a row of the contributor file. Fails with a parse
    /// error where the row holds fewer than four fields, where the second is
    /// no number, or where the third or fourth is no label.
    pub fn try_from(row: &csv::StringRecord) -> (r: Result<IndexRecord, IndexError>)
        ensures
            match r {
                Ok(record) => Ok::<IndexRecordView, IndexError>(record@),
                Err(e) => Err(e),
            } == row_outcome(row_values(record_fields(*row))),
    {
        match read_row(row) {
            Ok(values) => IndexRecord::from_values(
                values.0,
                values.1,
                values.2.as_str(),
                values.3.as_str(),
            ),
            Err(_) => Err(IndexError::ParseError),
        }
    }
}

/// Whether one of the first `n` rows makes no record.
pub open spec fn any_bad_row(rows: Seq<Seq<Seq<char>>>, n: int) -> bool {
    exists|i: int| 0 <= i < n && (#[trigger] row_outcome(row_values(rows[i]))) is Err
}

/// The records that the rows of a file make, or a parse error where there
/// are no rows to be had or one of them makes no record.
pub open spec fn contrib_outcome(rows: Option<Seq<Seq<Seq<char>>>>) -> Result<
    Seq<IndexRecordView>,
    IndexError,
> {
    match rows {
        None => Err(IndexError::ParseError),
        Some(rows) => if any_bad_row(rows, rows.len() as int) {
            Err(IndexError::ParseError)
        } else {
            Ok(Seq::new(rows.len(), |i: int| row_outcome(row_values(rows[i]))->Ok_0))
        },
    }
}

/// Parses the contributor file, given as its bytes, into its records, in the
/// order of the rows.
///
/// The file has a header row and the columns synset, image number, split
/// and class. It is refused as a whole, with a parse error, where it is no
/// well-formed file of rows of one length or where a row makes no record.
pub fn parse_contrib_index(data: &[u8]) -> (r: Result<Vec<IndexRecord>, IndexError>)
    ensures
        match r {
            Ok(records) => Ok::<Seq<IndexRecordView>, IndexError>(records_view(records@)),
            Err(e) => Err(e),
        } == contrib_outcome(csv_rows(data@)),
{
    let rows = match read_rows(data) {
        Ok(rows) => rows,
        Err(_) => {
            return Err(IndexError::ParseError);
        },
    };
    let ghost fields = Seq::new(rows@.len(), |i: int| record_fields(rows@[i]));
    let mut records: Vec<IndexRecord> = Vec::new();
    let mut i: usize = 0;
    while i < rows.len()
        invariant
            i <= rows@.len(),
            fields == Seq::new(rows@.len(), |i: int| record_fields(rows@[i])),
            csv_rows(data@) == Some(fields),
            !any_bad_row(fields, i as int),
            records_view(records@) == Seq::new(
                i as nat,
                |k: int| row_outcome(row_values(fields[k]))->Ok_0,
            ),
        decreases rows@.len() - i,
    {
        let ghost before = records_view(records@);
        match IndexRecord::try_from(&rows[i]) {
            Ok(record) => {
                records.push(record);
                assert(records_view(records@) =~= before.push(record@));
            },
            Err(_) => {
                assert(row_outcome(row_values(fields[i as int])) is Err);
                return Err(IndexError::ParseError);
            },
        }
        assert(records_view(records@) =~= Seq::new(
            (i + 1) as nat,
            |k: int| row_outcome(row_values(fields[k]))->Ok_0,
        ));
        i += 1;
    }
    Ok(records)
}

} // verus!
