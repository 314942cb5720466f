use rs_cinic_10_index::error::IndexError;
use rs_cinic_10_index::index::{
    DatasetIndex, ObjectClass, CHANNELS, HEIGHT, SAMPLES_PER_CLASS, SAMPLES_PER_DATASET, WIDTH,
};
use rs_cinic_10_index::listing::{is_image_file, list_pngs_sorted, precedes, sort_names};
use rs_cinic_10_index::paths::join_path;
use std::path::Path;

/// Entries of a class directory: `count` images, named so that sorting
/// changes their order, and two files that are no images.
fn class_listing(class: usize, count: usize) -> Vec<String> {
    let mut names: Vec<String> = (0..count)
        .map(|i| format!("c{}-{:05}.png", class, (i * 7919) % count))
        .collect();
    names.push("notes.txt".to_string());
    names.push("thumb.PNG".to_string());
    names
}

fn full_listings() -> Vec<Option<Vec<String>>> {
    (0..10).map(|c| Some(class_listing(c, SAMPLES_PER_CLASS))).collect()
}

fn png_32x32() -> Vec<u8> {
    let img = image::RgbImage::from_fn(32, 32, |x, y| image::Rgb([x as u8, y as u8, 7]));
    let mut bytes = Vec::new();
    img.write_to(&mut std::io::Cursor::new(&mut bytes), image::ImageFormat::Png)
        .unwrap();
    bytes
}

#[test]
fn index_test_load_test_batch() {
    let test = DatasetIndex::load_index_from_dir("cinic/test", &full_listings()).unwrap();
    let indices = (0..3).map(|i| i * SAMPLES_PER_CLASS).collect::<Vec<_>>();
    let file = png_32x32();

    let batch = test
        .load_rgbimagebatch(&indices, |_path: &String| Some(file.clone()))
        .unwrap();
    let classes = test.indices_to_classes(&indices);

    assert_eq!(batch.shape, [3, HEIGHT, WIDTH, CHANNELS]);
    assert_eq!(
        classes,
        vec![
            ObjectClass::Airplane,
            ObjectClass::Automobile,
            ObjectClass::Bird
        ]
    );
}

#[test]
fn batch_by_index_fetches_the_paths_of_the_indices_in_order() {
    let index = DatasetIndex::load_index_from_dir("/data/valid", &full_listings()).unwrap();
    let indices = [89_999usize, 0, 89_999];
    let asked = std::cell::RefCell::new(Vec::new());
    let file = png_32x32();
    let batch = index
        .load_rgbimagebatch(&indices, |path: &String| {
            asked.borrow_mut().push(path.clone());
            Some(file.clone())
        })
        .unwrap();
    assert_eq!(asked.into_inner(), index.indices_to_paths(&indices));
    assert_eq!(batch.shape, vec![3, 32, 32, 3]);
    assert_eq!(batch.data.len(), 3 * 32 * 32 * 3);
}

#[test]
fn batch_by_index_fails_where_a_file_is_missing() {
    let index = DatasetIndex::load_index_from_dir("/data/valid", &full_listings()).unwrap();
    let missing = index.index_to_path(5);
    let file = png_32x32();
    let result = index.load_rgbimagebatch(&[4, 5, 6], |path: &String| {
        if *path == missing {
            None
        } else {
            Some(file.clone())
        }
    });
    assert_eq!(result.err(), Some(IndexError::DecodeError));
}

#[test]
fn complete_split_has_exactly_the_expected_count() {
    let index = DatasetIndex::load_index_from_dir("train", &full_listings()).unwrap();
    assert_eq!(index.len(), 90_000);
    assert_eq!(index.len(), SAMPLES_PER_DATASET);
    assert_eq!(SAMPLES_PER_DATASET, SAMPLES_PER_CLASS * ObjectClass::COUNT);
    assert!(!index.is_empty());
    assert_eq!(index.ds_path(), "train");
}

#[test]
fn split_short_of_one_image_fails() {
    let mut listings = full_listings();
    listings[3].as_mut().unwrap().remove(17);
    assert_eq!(
        DatasetIndex::load_index_from_dir("train", &listings).err(),
        Some(IndexError::CountMismatch)
    );
}

#[test]
fn split_with_one_image_too_many_fails() {
    let mut listings = full_listings();
    listings[9].as_mut().unwrap().push("one-more.png".to_string());
    assert_eq!(
        DatasetIndex::load_index_from_dir("train", &listings).err(),
        Some(IndexError::CountMismatch)
    );
}

#[test]
fn only_the_total_count_is_checked() {
    let mut listings = full_listings();
    let moved = listings[0].as_mut().unwrap().remove(0);
    listings[1].as_mut().unwrap().push(moved);
    let index = DatasetIndex::load_index_from_dir("train", &listings).unwrap();
    assert_eq!(index.index_to_class(SAMPLES_PER_CLASS - 2), ObjectClass::Airplane);
    assert_eq!(index.index_to_class(SAMPLES_PER_CLASS - 1), ObjectClass::Automobile);
}

#[test]
fn missing_class_directory_fails() {
    let mut listings = full_listings();
    listings[6] = None;
    assert_eq!(
        DatasetIndex::load_index_from_dir("train", &listings).err(),
        Some(IndexError::DirectoryError)
    );
    let mut short = full_listings();
    short.pop();
    assert_eq!(
        DatasetIndex::load_index_from_dir("train", &short).err(),
        Some(IndexError::DirectoryError)
    );
    assert_eq!(
        DatasetIndex::load_index_from_dir("train", &Vec::new()).err(),
        Some(IndexError::DirectoryError)
    );
}

#[test]
fn missing_directory_stands_before_a_wrong_count() {
    let mut listings = full_listings();
    listings[0].as_mut().unwrap().clear();
    listings[9] = None;
    assert_eq!(
        DatasetIndex::load_index_from_dir("train", &listings).err(),
        Some(IndexError::DirectoryError)
    );
}

#[test]
fn catalogue_is_grouped_by_class_and_sorted_inside() {
    let index = DatasetIndex::load_index_from_dir("root", &full_listings()).unwrap();
    for (c, class) in ObjectClass::all().into_iter().enumerate() {
        let first = c * SAMPLES_PER_CLASS;
        assert_eq!(index.index_to_class(first), class);
        assert_eq!(index.index_to_class(first + SAMPLES_PER_CLASS - 1), class);
        assert_eq!(
            index.index_to_path(first),
            format!("root/{}/c{}-00000.png", class.name(), c)
        );
        assert_eq!(
            index.index_to_path(first + 4321),
            format!("root/{}/c{}-04321.png", class.name(), c)
        );
    }
}

#[test]
fn paths_keep_order_and_repeats() {
    let index = DatasetIndex::load_index_from_dir("/d/test", &full_listings()).unwrap();
    let (i, j) = (12_345usize, 77usize);
    assert_eq!(
        index.indices_to_paths(&[i, j, i]),
        vec![index.index_to_path(i), index.index_to_path(j), index.index_to_path(i)]
    );
    assert_eq!(
        index.indices_to_classes(&[i, j, i]),
        vec![ObjectClass::Automobile, ObjectClass::Airplane, ObjectClass::Automobile]
    );
    assert_eq!(index.indices_to_paths(&[]), Vec::<String>::new());
    assert_eq!(index.indices_to_paths(&[j]), index.indices_to_paths(&[j]));
}

#[test]
fn path_is_root_then_class_then_file() {
    let index = DatasetIndex::load_index_from_dir("/data/cinic/train/", &full_listings()).unwrap();
    assert_eq!(index.index_to_path(0), "/data/cinic/train/airplane/c0-00000.png");
    let expected = Path::new("/data/cinic/train/").join("truck").join("c9-08999.png");
    assert_eq!(Path::new(&index.index_to_path(89_999)), expected.as_path());
}

#[test]
fn join_path_agrees_with_std_on_unix_paths() {
    for base in ["", "/", "a", "a/", "/a/b", "a//", "."] {
        for segment in ["", "x", "x/y", "/x", "x/", ".."] {
            let expected = Path::new(base).join(segment);
            assert_eq!(join_path(base, segment), expected.to_str().unwrap(), "{base:?} {segment:?}");
        }
    }
    assert_eq!(join_path("a", "b"), "a/b");
    assert_eq!(join_path("a/", "b"), "a/b");
    assert_eq!(join_path("", "b"), "b");
    assert_eq!(join_path("a", "/b"), "/b");
}

#[test]
fn image_files_end_in_dot_png() {
    for name in ["a.png", "cifar10-train-3318.png", "x.y.png", "..png", "\u{e9}.png"] {
        assert!(is_image_file(name), "{name}");
        assert_eq!(Path::new(name).extension().and_then(|e| e.to_str()), Some("png"));
    }
    for name in [".png", "png", "a.PNG", "a.png ", "a.jpg", "a.pngx", "", "apng", "a.pn"] {
        assert!(!is_image_file(name), "{name}");
        assert_ne!(Path::new(name).extension().and_then(|e| e.to_str()), Some("png"));
    }
}

#[test]
fn listing_keeps_the_images_and_sorts_them() {
    let entries: Vec<String> = ["b.png", "readme", "a.png", "B.png", "a.png", "10.png", "9.png", ".png"]
        .iter()
        .map(|s| s.to_string())
        .collect();
    assert_eq!(
        list_pngs_sorted(&entries),
        vec!["10.png", "9.png", "B.png", "a.png", "a.png", "b.png"]
    );
    assert_eq!(list_pngs_sorted(&Vec::new()), Vec::<String>::new());
}

#[test]
fn names_sort_as_std_sorts_strings() {
    let mut names: Vec<String> = (0..2000u32)
        .map(|i| {
            let k = i.wrapping_mul(2_654_435_761) % 5000;
            match i % 4 {
                0 => format!("n{}", k),
                1 => format!("\u{e9}{}", k),
                2 => format!("N{:04}", k),
                _ => format!("{}\u{4e2d}", k),
            }
        })
        .collect();
    names.push(String::new());
    names.push("n1".to_string());
    let sorted = sort_names(&names);
    names.sort();
    assert_eq!(sorted, names);
}

#[test]
fn shorter_name_stands_before_its_extensions() {
    assert!(precedes("abc", "abcd"));
    assert!(!precedes("abcd", "abc"));
    assert!(precedes("abc", "abc"));
    assert!(precedes("", "a"));
    assert!(precedes("Z", "a"));
    assert!(precedes("z", "\u{e9}"));
    assert!(!precedes("b", "a"));
}
