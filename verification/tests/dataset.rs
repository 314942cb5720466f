use rs_cinic_10_index::dataset::DatasetFiles;
use rs_cinic_10_index::error::IndexError;
use rs_cinic_10_index::index::{DataSet, ObjectClass, CONTRIB_FILE, SYNSET_FILE};
use rs_cinic_10_index::{
    default_data_path_or_panic, get_default_data_path, set_default_data_path, Cinic10Index,
    CINC10_PATH_ENV_VAR,
};

fn listings(tag: &str) -> Vec<Option<Vec<String>>> {
    (0..10)
        .map(|c| Some((0..9000).map(|i| format!("{}-{}-{:04}.png", tag, c, i)).collect()))
        .collect()
}

fn files() -> DatasetFiles {
    DatasetFiles {
        contributors: Some(b"synset,image_num,cinic_set,class\nn1,3,test,deer\n".to_vec()),
        synsets: Some("deer\n-n1: stag, hart\n".to_string()),
        train: listings("tr"),
        test: listings("te"),
        valid: listings("va"),
    }
}

#[test]
fn whole_dataset_is_indexed() {
    let index = Cinic10Index::new_from_dir("/data/cinic", &files()).unwrap();
    assert_eq!(index.root, "/data/cinic");
    assert_eq!(index.imagenet_contrib.len(), 1);
    assert_eq!(index.imagenet_contrib[0].synset, "n1");
    assert_eq!(index.imagenet_contrib[0].image_num, 3);
    assert_eq!(index.imagenet_contrib[0].data_set, DataSet::Test);
    assert_eq!(index.imagenet_contrib[0].class, ObjectClass::Deer);
    assert_eq!(index.synset_map.len(), 1);
    assert_eq!(index.synset_map.get("n1").unwrap().aliases, vec!["stag", "hart"]);
    assert_eq!(index.train.ds_path(), "/data/cinic/train");
    assert_eq!(index.test.ds_path(), "/data/cinic/test");
    assert_eq!(index.valid.ds_path(), "/data/cinic/valid");
    assert_eq!(index.train.len(), 90_000);
    assert_eq!(index.test.index_to_path(9000), "/data/cinic/test/automobile/te-1-0000.png");
    assert_eq!(index.valid.index_to_class(89_999), ObjectClass::Truck);
}

#[test]
fn first_failing_part_decides_the_error() {
    let mut no_records = files();
    no_records.contributors = None;
    no_records.synsets = Some("-n1: early\n".to_string());
    assert_eq!(
        Cinic10Index::new_from_dir("r", &no_records).err(),
        Some(IndexError::DirectoryError)
    );

    let mut bad_records = files();
    bad_records.contributors = Some(b"h,h,h,h\nn1,3,test,elk\n".to_vec());
    bad_records.synsets = None;
    assert_eq!(
        Cinic10Index::new_from_dir("r", &bad_records).err(),
        Some(IndexError::ParseError)
    );

    let mut no_synsets = files();
    no_synsets.synsets = None;
    no_synsets.train[0] = Some(Vec::new());
    assert_eq!(
        Cinic10Index::new_from_dir("r", &no_synsets).err(),
        Some(IndexError::DirectoryError)
    );

    let mut bad_synsets = files();
    bad_synsets.synsets = Some("elk\n".to_string());
    bad_synsets.train[0] = Some(Vec::new());
    assert_eq!(
        Cinic10Index::new_from_dir("r", &bad_synsets).err(),
        Some(IndexError::ParseError)
    );

    let mut short_train = files();
    short_train.train[0].as_mut().unwrap().pop();
    short_train.test[0] = None;
    assert_eq!(
        Cinic10Index::new_from_dir("r", &short_train).err(),
        Some(IndexError::CountMismatch)
    );

    let mut no_test_class = files();
    no_test_class.test[4] = None;
    no_test_class.valid[0].as_mut().unwrap().pop();
    assert_eq!(
        Cinic10Index::new_from_dir("r", &no_test_class).err(),
        Some(IndexError::DirectoryError)
    );

    let mut short_valid = files();
    short_valid.valid[9].as_mut().unwrap().pop();
    assert_eq!(
        Cinic10Index::new_from_dir("r", &short_valid).err(),
        Some(IndexError::CountMismatch)
    );
}

#[test]
fn configured_path_stands_before_the_environment() {
    let mut configured: Option<String> = None;
    assert_eq!(get_default_data_path(&configured, None), None);
    assert_eq!(
        get_default_data_path(&configured, Some("/env".to_string())),
        Some("/env".to_string())
    );
    set_default_data_path(&mut configured, Some("/set".to_string()));
    assert_eq!(
        get_default_data_path(&configured, Some("/env".to_string())),
        Some("/set".to_string())
    );
    assert_eq!(default_data_path_or_panic(&configured, None), "/set");
    set_default_data_path(&mut configured, None);
    assert_eq!(default_data_path_or_panic(&configured, Some("/env".to_string())), "/env");
    assert_eq!(CINC10_PATH_ENV_VAR, "CINIC10_PATH");
}

#[test]
fn fixed_names_of_the_root_directory() {
    assert_eq!(CONTRIB_FILE, "imagenet-contributors.csv");
    assert_eq!(SYNSET_FILE, "synsets-to-cifar-10-classes.txt");
    assert_eq!(DataSet::Train.name(), "train");
    assert_eq!(DataSet::Test.name(), "test");
    assert_eq!(DataSet::Valid.name(), "valid");
}

#[test]
fn every_error_has_its_own_message() {
    let all = [
        IndexError::ParseError,
        IndexError::DirectoryError,
        IndexError::DimensionMismatch,
        IndexError::DecodeError,
        IndexError::CountMismatch,
    ];
    for (i, a) in all.iter().enumerate() {
        assert!(!a.message().is_empty());
        for b in &all[i + 1..] {
            assert_ne!(a.message(), b.message());
        }
    }
}
