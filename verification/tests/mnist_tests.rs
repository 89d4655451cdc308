use std::io::Write;

use flate2::write::GzEncoder;
use flate2::Compression;

use swiftlearner::error::LoadError;
use swiftlearner::mnist::label_image_pairs;
use swiftlearner::mnist::load_data;
use swiftlearner::mnist::read_images;
use swiftlearner::mnist::read_labels;
use swiftlearner::mnist::IMAGE_SIZE;
use swiftlearner::mnist::TEST_SET_SIZE;

fn gz(data: &[u8]) -> Vec<u8> {
    let mut encoder = GzEncoder::new(Vec::new(), Compression::default());
    encoder.write_all(data).unwrap();
    encoder.finish().unwrap()
}

fn label_stream(labels: &[u8]) -> Vec<u8> {
    let mut stream = vec![0u8; 8];
    stream.extend_from_slice(labels);
    stream
}

fn image_stream(fills: &[u8]) -> Vec<u8> {
    let mut stream = vec![0u8; 16];
    for &fill in fills {
        stream.extend_from_slice(&vec![fill; IMAGE_SIZE]);
    }
    stream
}

#[test]
fn test_read_labels_skips_header() {
    let stream = label_stream(&[1, 2, 3]);
    assert_eq!(read_labels(&stream, 3), Ok(vec![1, 2, 3]));
    assert_eq!(read_labels(&stream, 2), Ok(vec![1, 2]));
}

#[test]
fn test_read_labels_truncated() {
    let stream = label_stream(&[1, 2, 3]);
    assert_eq!(read_labels(&stream, 4), Err(LoadError::Truncated));
    assert_eq!(read_labels(&[0u8; 7], 0), Err(LoadError::Truncated));
}

#[test]
fn test_read_images_skips_header_and_chunks() {
    let stream = image_stream(&[7, 9]);
    let images = read_images(&stream, 2).unwrap();
    assert_eq!(images.len(), 2);
    assert_eq!(images[0], vec![7u8; IMAGE_SIZE]);
    assert_eq!(images[1], vec![9u8; IMAGE_SIZE]);
}

#[test]
fn test_read_images_truncated() {
    let mut stream = image_stream(&[7]);
    stream.pop();
    assert_eq!(read_images(&stream, 1), Err(LoadError::Truncated));
}

#[test]
fn test_label_image_pairs() {
    let labels = vec![3u8, 1u8];
    let images = vec![vec![10u8; IMAGE_SIZE], vec![20u8; IMAGE_SIZE]];
    let pairs = label_image_pairs(&labels, &images);
    assert_eq!(pairs.len(), 2);
    assert_eq!(pairs[0].0, 3);
    assert_eq!(pairs[0].1, vec![10u8; IMAGE_SIZE]);
    assert_eq!(pairs[1].0, 1);
    assert_eq!(pairs[1].1, vec![20u8; IMAGE_SIZE]);
}

#[test]
fn test_load_data_sizes_and_contents() {
    let train_labels = gz(&label_stream(&[5, 0, 4]));
    let train_images = gz(&image_stream(&[1, 2, 3]));
    let test_labels = gz(&label_stream(&vec![6u8; TEST_SET_SIZE]));
    let test_images = gz(&image_stream(&vec![8u8; TEST_SET_SIZE]));

    let (training_set, test_set) = load_data(
        Some(0),
        3,
        &train_images,
        &train_labels,
        &test_images,
        &test_labels,
    )
    .unwrap();

    assert_eq!(training_set.len(), 3);
    assert_eq!(test_set.len(), TEST_SET_SIZE);

    let mut train_classes: Vec<usize> = training_set.iter().map(|(c, _)| *c).collect();
    train_classes.sort();
    assert_eq!(train_classes, vec![0, 4, 5]);
    for (class, image) in &training_set {
        let expected_fill = match class {
            5 => 1u8,
            0 => 2u8,
            4 => 3u8,
            _ => unreachable!(),
        };
        assert_eq!(image, &vec![expected_fill; IMAGE_SIZE]);
    }

    assert_eq!(test_set[0].0, 6);
    assert_eq!(test_set[0].1, vec![8u8; IMAGE_SIZE]);
    assert_eq!(test_set[TEST_SET_SIZE - 1].0, 6);
}

#[test]
fn test_load_data_same_seed_same_order() {
    let train_labels = gz(&label_stream(&[0, 1, 2, 3, 4, 5, 6, 7]));
    let train_images = gz(&image_stream(&[0, 1, 2, 3, 4, 5, 6, 7]));
    let test_labels = gz(&label_stream(&vec![0u8; TEST_SET_SIZE]));
    let test_images = gz(&image_stream(&vec![0u8; TEST_SET_SIZE]));

    let (first, _) = load_data(
        Some(9),
        8,
        &train_images,
        &train_labels,
        &test_images,
        &test_labels,
    )
    .unwrap();
    let (second, _) = load_data(
        Some(9),
        8,
        &train_images,
        &train_labels,
        &test_images,
        &test_labels,
    )
    .unwrap();
    let first_classes: Vec<usize> = first.iter().map(|(c, _)| *c).collect();
    let second_classes: Vec<usize> = second.iter().map(|(c, _)| *c).collect();
    assert_eq!(first_classes, second_classes);
}

#[test]
fn test_load_data_corrupt_stream() {
    let good_labels = gz(&label_stream(&vec![0u8; TEST_SET_SIZE]));
    let good_images = gz(&image_stream(&[1]));
    let r = load_data(Some(0), 1, b"not gzip", &good_labels, &good_images, &good_labels);
    assert_eq!(r.unwrap_err(), LoadError::Corrupt);
    let r = load_data(Some(0), 1, &good_images, &good_labels, &good_images, b"not gzip");
    assert_eq!(r.unwrap_err(), LoadError::Corrupt);
}

#[test]
fn test_load_data_truncated_stream() {
    let train_labels = gz(&label_stream(&[5]));
    let train_images = gz(&image_stream(&[1]));
    let test_labels = gz(&label_stream(&[6; 10]));
    let test_images = gz(&image_stream(&[8; 10]));
    let r = load_data(
        Some(0),
        1,
        &train_images,
        &train_labels,
        &test_images,
        &test_labels,
    );
    assert_eq!(r.unwrap_err(), LoadError::Truncated);
}
