use rs_cinic_10_index::error::IndexError;
use rs_cinic_10_index::index::{parse_contrib_index, DataSet, IndexRecord, ObjectClass};

#[test]
fn parse_index_record() {
    let expected = IndexRecord {
        synset: "n02123045".to_string(),
        image_num: 1,
        data_set: DataSet::Train,
        class: ObjectClass::Airplane,
    };

    let row = csv::StringRecord::from(vec!["n02123045", "1", "train", "airplane"]);
    let record: IndexRecord = IndexRecord::try_from(&row).unwrap();

    assert_eq!(record, expected);
}

#[test]
fn test_parse_index_from_reader() {
    let source = "synset, image_num, cinic_set, class\nn02704645, 14894, train, airplane\nn02690373, 6332, valid, frog\n";

    let records = parse_contrib_index(source.as_bytes()).unwrap();

    assert_eq!(records.len(), 2);

    let record = records.first().unwrap();
    assert_eq!(record.synset, "n02704645");
    assert_eq!(record.image_num, 14894);
    assert_eq!(record.data_set, DataSet::Train);
    assert_eq!(record.class, ObjectClass::Airplane);

    let record = records.get(1).unwrap();
    assert_eq!(record.synset, "n02690373");
    assert_eq!(record.image_num, 6332);
    assert_eq!(record.data_set, DataSet::Valid);
    assert_eq!(record.class, ObjectClass::Frog);
}

#[test]
fn record_from_values_checks_both_labels() {
    assert_eq!(
        IndexRecord::from_values("n1".to_string(), 7, "test", "ship"),
        Ok(IndexRecord {
            synset: "n1".to_string(),
            image_num: 7,
            data_set: DataSet::Test,
            class: ObjectClass::Ship,
        })
    );
    assert_eq!(
        IndexRecord::from_values("n1".to_string(), 7, "tests", "ship"),
        Err(IndexError::ParseError)
    );
    assert_eq!(
        IndexRecord::from_values("n1".to_string(), 7, "test", "boat"),
        Err(IndexError::ParseError)
    );
}

#[test]
fn row_that_makes_no_record_is_a_parse_error() {
    let short = csv::StringRecord::from(vec!["n1", "1", "train"]);
    assert_eq!(IndexRecord::try_from(&short), Err(IndexError::ParseError));
    let no_number = csv::StringRecord::from(vec!["n1", "one", "train", "cat"]);
    assert_eq!(IndexRecord::try_from(&no_number), Err(IndexError::ParseError));
    let negative = csv::StringRecord::from(vec!["n1", "-1", "train", "cat"]);
    assert_eq!(IndexRecord::try_from(&negative), Err(IndexError::ParseError));
    let bad_split = csv::StringRecord::from(vec!["n1", "1", "Train", "cat"]);
    assert_eq!(IndexRecord::try_from(&bad_split), Err(IndexError::ParseError));
    let untrimmed = csv::StringRecord::from(vec!["n1", "1", "train", " cat"]);
    assert_eq!(IndexRecord::try_from(&untrimmed), Err(IndexError::ParseError));
}

#[test]
fn row_fields_are_read_by_position() {
    let row = csv::StringRecord::from(vec![" n5 ", "42", "valid", "truck", "extra"]);
    assert_eq!(
        IndexRecord::try_from(&row),
        Ok(IndexRecord {
            synset: " n5 ".to_string(),
            image_num: 42,
            data_set: DataSet::Valid,
            class: ObjectClass::Truck,
        })
    );
}

#[test]
fn contributor_file_keeps_rows_in_order_and_repeats() {
    let source = "synset,image_num,cinic_set,class\nb,2,test,dog\na,1,train,cat\nb,2,test,dog\n";
    let records = parse_contrib_index(source.as_bytes()).unwrap();
    let synsets: Vec<&str> = records.iter().map(|r| r.synset.as_str()).collect();
    assert_eq!(synsets, vec!["b", "a", "b"]);
    assert_eq!(records[0], records[2]);
}

#[test]
fn contributor_file_header_row_is_not_a_record() {
    assert_eq!(parse_contrib_index(b"synset,image_num,cinic_set,class\n"), Ok(vec![]));
    assert_eq!(parse_contrib_index(b""), Ok(vec![]));
    assert_eq!(parse_contrib_index(b"n1,1,train,cat\n"), Ok(vec![]));
}

#[test]
fn contributor_file_with_a_bad_row_is_refused() {
    let bad_class = "synset,image_num,cinic_set,class\nn1,1,train,cat\nn2,2,train,lion\n";
    assert_eq!(parse_contrib_index(bad_class.as_bytes()), Err(IndexError::ParseError));
    let ragged = "synset,image_num,cinic_set,class\nn1,1,train\n";
    assert_eq!(parse_contrib_index(ragged.as_bytes()), Err(IndexError::ParseError));
    let not_text = b"synset,image_num,cinic_set,class\n\xff\xfe,1,train,cat\n";
    assert_eq!(parse_contrib_index(not_text), Err(IndexError::ParseError));
}
