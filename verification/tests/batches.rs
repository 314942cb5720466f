use rs_cinic_10_index::error::IndexError;
use rs_cinic_10_index::images::{
    load_batch, load_bhwc_rgbimagebatch, load_bhwc_rgbimagebatch_with, load_rgbimage, pack_bhwc,
    RgbImage, RgbImageBatch,
};

fn rgb(width: u32, height: u32, seed: u8) -> RgbImage {
    let data: Vec<u8> = (0..width * height * 3)
        .map(|i| (i as u8).wrapping_mul(31).wrapping_add(seed))
        .collect();
    RgbImage::from_raw(width, height, data).unwrap()
}

fn png_of(img: &RgbImage) -> Vec<u8> {
    let buffer = image::RgbImage::from_raw(img.width, img.height, img.data.clone()).unwrap();
    let mut bytes = Vec::new();
    buffer
        .write_to(&mut std::io::Cursor::new(&mut bytes), image::ImageFormat::Png)
        .unwrap();
    bytes
}

#[test]
fn two_identical_images_make_a_batch_of_two() {
    let img = rgb(32, 32, 5);
    let batch = pack_bhwc(&[img.clone(), img.clone()]).unwrap();
    assert_eq!(batch.shape, vec![2, 32, 32, 3]);
    assert_eq!(batch.data.len(), 6144);
    assert_eq!(batch.data[..3072], batch.data[3072..]);
    assert_eq!(batch.data[..3072], img.data[..]);
}

#[test]
fn two_identical_files_make_a_batch_of_two() {
    let img = rgb(32, 32, 9);
    let file = png_of(&img);
    let batch = load_bhwc_rgbimagebatch(&[file.clone(), file]).unwrap();
    assert_eq!(batch.shape, vec![2, 32, 32, 3]);
    assert_eq!(batch.data.len(), 2 * 32 * 32 * 3);
    assert_eq!(batch.data[..3072], batch.data[3072..]);
    assert_eq!(batch.data[..3072], img.data[..]);
    assert_eq!(batch.batch_size(), 2);
    assert_eq!(batch.height(), 32);
    assert_eq!(batch.width(), 32);
    assert_eq!(batch.channels(), 3);
    assert_eq!(batch.size(), 6144);
}

#[test]
fn mixed_sizes_are_a_dimension_mismatch() {
    let batch = pack_bhwc(&[rgb(32, 32, 1), rgb(28, 28, 2)]);
    assert_eq!(batch.err(), Some(IndexError::DimensionMismatch));
    let files = [png_of(&rgb(32, 32, 1)), png_of(&rgb(28, 28, 2))];
    assert_eq!(load_bhwc_rgbimagebatch(&files).err(), Some(IndexError::DimensionMismatch));
    let transposed = pack_bhwc(&[rgb(4, 6, 1), rgb(6, 4, 1)]);
    assert_eq!(transposed.err(), Some(IndexError::DimensionMismatch));
}

#[test]
fn batch_is_image_major_and_row_major() {
    let a = RgbImage::from_raw(2, 1, vec![1, 2, 3, 4, 5, 6]).unwrap();
    let b = RgbImage::from_raw(2, 1, vec![7, 8, 9, 10, 11, 12]).unwrap();
    let c = RgbImage::from_raw(2, 1, vec![13, 14, 15, 16, 17, 18]).unwrap();
    let batch = pack_bhwc(&[a, b, c]).unwrap();
    assert_eq!(batch.shape, vec![3, 1, 2, 3]);
    assert_eq!(batch.data, (1..=18).collect::<Vec<u8>>());
}

#[test]
fn packing_takes_the_buffers_as_they_are() {
    let short = RgbImage { width: 2, height: 1, data: vec![1, 2, 3] };
    let batch = pack_bhwc(&[short.clone(), short]).unwrap();
    assert_eq!(batch.shape, vec![2, 1, 2, 3]);
    assert_eq!(batch.data, vec![1, 2, 3, 1, 2, 3]);
    assert_eq!(batch.size(), 12);
}

#[test]
fn shape_lists_height_before_width() {
    let batch = pack_bhwc(&[rgb(5, 2, 0)]).unwrap();
    assert_eq!(batch.shape, vec![1, 2, 5, 3]);
    assert_eq!(batch.data.len(), 30);
    let files = [png_of(&rgb(5, 2, 0))];
    assert_eq!(load_bhwc_rgbimagebatch(&files).unwrap().shape, vec![1, 2, 5, 3]);
}

#[test]
fn file_that_is_no_image_is_a_decode_error() {
    assert_eq!(load_rgbimage(b"not a png").err(), Some(IndexError::DecodeError));
    assert_eq!(load_rgbimage(b"").err(), Some(IndexError::DecodeError));
    let good = png_of(&rgb(3, 3, 0));
    let mut cut = good.clone();
    cut.truncate(good.len() / 2);
    assert_eq!(load_rgbimage(&cut).err(), Some(IndexError::DecodeError));
    assert_eq!(
        load_bhwc_rgbimagebatch(&[good.clone(), b"junk".to_vec(), good]).err(),
        Some(IndexError::DecodeError)
    );
}

#[test]
fn first_failing_image_decides_the_error() {
    let small = png_of(&rgb(2, 2, 0));
    let large = png_of(&rgb(3, 3, 0));
    let junk = b"junk".to_vec();
    assert_eq!(
        load_bhwc_rgbimagebatch(&[small.clone(), large.clone(), junk.clone()]).err(),
        Some(IndexError::DimensionMismatch)
    );
    assert_eq!(
        load_bhwc_rgbimagebatch(&[small, junk, large]).err(),
        Some(IndexError::DecodeError)
    );
}

#[test]
fn decoding_gives_the_pixels_row_by_row() {
    let img = rgb(3, 2, 40);
    let decoded = load_rgbimage(&png_of(&img)).unwrap();
    assert_eq!(decoded, img);
    assert_eq!(decoded.dimensions(), (3, 2));
    assert_ne!(decoded.data, png_of(&img));
}

#[test]
fn other_pixel_formats_become_rgb() {
    let mut bytes = Vec::new();
    let rgba = image::RgbaImage::from_raw(2, 1, vec![10, 20, 30, 0, 40, 50, 60, 255]).unwrap();
    rgba.write_to(&mut std::io::Cursor::new(&mut bytes), image::ImageFormat::Png)
        .unwrap();
    assert_eq!(load_rgbimage(&bytes).unwrap().data, vec![10, 20, 30, 40, 50, 60]);

    let mut bytes = Vec::new();
    let gray = image::GrayImage::from_raw(2, 1, vec![0, 200]).unwrap();
    gray.write_to(&mut std::io::Cursor::new(&mut bytes), image::ImageFormat::Png)
        .unwrap();
    assert_eq!(load_rgbimage(&bytes).unwrap().data, vec![0, 0, 0, 200, 200, 200]);
}

#[test]
fn image_buffer_must_hold_three_bytes_a_pixel() {
    assert!(RgbImage::from_raw(2, 2, vec![0; 12]).is_some());
    assert!(RgbImage::from_raw(2, 2, vec![0; 11]).is_none());
    assert!(RgbImage::from_raw(0, 5, Vec::new()).is_some());
    assert!(RgbImage::from_raw(u32::MAX, u32::MAX, vec![0; 3]).is_none());
}

#[test]
fn new_batch_is_empty_and_sized_by_its_shape() {
    let mut batch = RgbImageBatch::new(&[2, 4, 5, 3]);
    assert_eq!(batch.shape, vec![2, 4, 5, 3]);
    assert!(batch.data.is_empty());
    assert_eq!(batch.size(), 120);
    assert_eq!((batch.batch_size(), batch.height(), batch.width(), batch.channels()), (2, 4, 5, 3));
    let img = rgb(5, 4, 3);
    batch.push_rgb_pixels(&img);
    assert_eq!(batch.data, img.data);
    batch.push_rgb_pixels(&img);
    assert_eq!(batch.data.len(), batch.size());
    assert_eq!(RgbImageBatch::new(&[0, 4, 5, 3]).size(), 0);
    assert_eq!(RgbImageBatch::new(&[usize::MAX, usize::MAX, 0, 3]).size(), 0);
}

#[test]
fn callbacks_get_the_shape_and_every_image_in_order() {
    let images = vec![rgb(3, 2, 1), rgb(3, 2, 2), rgb(3, 2, 3)];
    let log = load_batch(
        &images,
        |img: &RgbImage| Ok(img.clone()),
        |shape: &[usize; 4]| Ok(vec![format!("{:?}", shape)]),
        |mut log: Vec<String>, idx: usize, img: &RgbImage| {
            log.push(format!("{}:{}", idx, img.data[0]));
            Ok(log)
        },
    )
    .unwrap();
    assert_eq!(log, vec!["[3, 2, 3, 3]", "0:1", "1:2", "2:3"]);
}

#[test]
fn callback_errors_end_the_run() {
    let images = vec![rgb(1, 1, 0), rgb(1, 1, 1)];
    let refused_shape: Result<u32, IndexError> = load_batch(
        &images,
        |img: &RgbImage| Ok(img.clone()),
        |_shape: &[usize; 4]| Err(IndexError::CountMismatch),
        |n: u32, _idx: usize, _img: &RgbImage| Ok(n + 1),
    );
    assert_eq!(refused_shape, Err(IndexError::CountMismatch));
    let refused_image: Result<u32, IndexError> = load_batch(
        &images,
        |img: &RgbImage| Ok(img.clone()),
        |_shape: &[usize; 4]| Ok(0),
        |n: u32, idx: usize, _img: &RgbImage| {
            if idx == 1 {
                Err(IndexError::DirectoryError)
            } else {
                Ok(n + 1)
            }
        },
    );
    assert_eq!(refused_image, Err(IndexError::DirectoryError));
    let counted: Result<u32, IndexError> = load_batch(
        &images,
        |img: &RgbImage| Ok(img.clone()),
        |_shape: &[usize; 4]| Ok(0),
        |n: u32, _idx: usize, _img: &RgbImage| Ok(n + 1),
    );
    assert_eq!(counted, Ok(2));
}

#[test]
fn loader_error_is_handed_on() {
    let paths = vec!["a", "b", "c"];
    let seen = std::cell::RefCell::new(Vec::new());
    let result = load_bhwc_rgbimagebatch_with(&paths, |path: &&str| {
        seen.borrow_mut().push(path.to_string());
        if *path == "b" {
            Err(IndexError::DirectoryError)
        } else {
            Ok(rgb(2, 2, 0))
        }
    });
    assert_eq!(result.err(), Some(IndexError::DirectoryError));
    assert_eq!(seen.into_inner(), vec!["a", "b"]);
}
