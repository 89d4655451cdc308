use vstd::prelude::*;
use vstd::slice::slice_to_vec;

use std::io::Read;

use crate::error::LoadError;
use crate::sampling::lemma_to_multiset_map;
use crate::sampling::shuffle;

verus! {

/// Width of one image, in pixels.
pub const IMAGE_WIDTH: usize = 28;
/// Height of one image, in pixels.
pub const IMAGE_HEIGHT: usize = 28;
/// Number of pixels in one image.
pub const IMAGE_SIZE: usize = 784;
/// Number of images in the full training set.
pub const TRAIN_SET_SIZE: usize = 60000;
/// Number of images in the full test set.
pub const TEST_SET_SIZE: usize = 10000;

/// Number of bytes of header (magic number and item count) before the labels.
pub const LABEL_HEADER_LEN: usize = 8;
/// Number of bytes of header (magic number, image count, rows, columns)
/// before the pixel data.
pub const IMAGE_HEADER_LEN: usize = 16;

/// Reads `set_size` labels from a decompressed label stream: the 8 header
/// bytes are skipped, then one unsigned byte per label.
pub fn read_labels(data: &[u8], set_size: usize) -> (r: Result<Vec<u8>, LoadError>)
    ensures
        match r {
            Ok(labels) => {
                &&& data@.len() >= LABEL_HEADER_LEN + set_size
                &&& labels@ == data@.subrange(
                    LABEL_HEADER_LEN as int,
                    LABEL_HEADER_LEN + set_size,
                )
            },
            Err(e) => {
                &&& e == LoadError::Truncated
                &&& data@.len() < LABEL_HEADER_LEN + set_size
            },
        },
{
    if data.len() >= LABEL_HEADER_LEN && data.len() - LABEL_HEADER_LEN >= set_size {
        Ok(slice_to_vec(&data[LABEL_HEADER_LEN..LABEL_HEADER_LEN + set_size]))
    } else {
        Err(LoadError::Truncated)
    }
}

/// The pixels of image `i` of a decompressed image stream: bytes
/// `16 + i * 784` up to `16 + (i + 1) * 784`.
pub open spec fn spec_image(data: Seq<u8>, i: int) -> Seq<u8> {
    data.subrange(
        IMAGE_HEADER_LEN + i * IMAGE_SIZE,
        IMAGE_HEADER_LEN + (i + 1) * IMAGE_SIZE,
    )
}

/// Reads `set_size` images from a decompressed image stream: the 16 header
/// bytes are skipped, then one image of `IMAGE_SIZE` unsigned bytes each.
pub fn read_images(data: &[u8], set_size: usize) -> (r: Result<Vec<Vec<u8>>, LoadError>)
    ensures
        match r {
            Ok(images) => {
                &&& data@.len() >= IMAGE_HEADER_LEN + set_size * IMAGE_SIZE
                &&& images@.len() == set_size
                &&& forall|i: int|
                    0 <= i < set_size ==> #[trigger] images@[i]@ == spec_image(data@, i)
            },
            Err(e) => {
                &&& e == LoadError::Truncated
                &&& data@.len() < IMAGE_HEADER_LEN + set_size * IMAGE_SIZE
            },
        },
{
    let mut images: Vec<Vec<u8>> = Vec::with_capacity(set_size);
    if data.len() < IMAGE_HEADER_LEN {
        return Err(LoadError::Truncated);
    }
    let mut pos: usize = IMAGE_HEADER_LEN;
    let mut i: usize = 0;
    while i < set_size
        invariant
            i <= set_size,
            pos == IMAGE_HEADER_LEN + i * IMAGE_SIZE,
            pos <= data@.len(),
            images@.len() == i,
            forall|k: int| 0 <= k < i ==> #[trigger] images@[k]@ == spec_image(data@, k),
        decreases set_size - i,
    {
        if data.len() - pos < IMAGE_SIZE {
            assert(data@.len() < IMAGE_HEADER_LEN + set_size * IMAGE_SIZE) by {
                assert(data@.len() < pos + IMAGE_SIZE);
                assert((i + 1) * IMAGE_SIZE <= set_size * IMAGE_SIZE) by (nonlinear_arith)
                    requires i + 1 <= set_size;
            }
            return Err(LoadError::Truncated);
        }
        let image = slice_to_vec(&data[pos..pos + IMAGE_SIZE]);
        images.push(image);
        pos = pos + IMAGE_SIZE;
        i = i + 1;
    }
    Ok(images)
}

/// Pairs each label with its image, the label widened to a class index.
pub fn label_image_pairs(labels: &Vec<u8>, images: &Vec<Vec<u8>>) -> (r: Vec<(usize, Vec<u8>)>)
    requires
        labels@.len() == images@.len(),
    ensures
        r@.len() == labels@.len(),
        forall|i: int|
            0 <= i < r@.len() ==> {
                &&& (#[trigger] r@[i]).0 == labels@[i] as usize
                &&& r@[i].1@ == images@[i]@
            },
{
    let n = labels.len();
    let mut pairs: Vec<(usize, Vec<u8>)> = Vec::with_capacity(n);
    for i in 0..n
        invariant
            n == labels@.len() == images@.len(),
            pairs@.len() == i,
            forall|k: int|
                0 <= k < i ==> {
                    &&& (#[trigger] pairs@[k]).0 == labels@[k] as usize
                    &&& pairs@[k].1@ == images@[k]@
                },
    {
        let label = labels[i];
        let image = images[i].clone();
        pairs.push((label as usize, image));
    }
    pairs
}

/// What decoding a gzip-compressed stream yields; the decoded bytes depend
/// on the compressed bytes alone.
pub uninterp spec fn gunzip_of(data: Seq<u8>) -> Seq<u8>;

/// Whether a stream is valid gzip, so that decoding it succeeds; like the
/// decoded bytes, this depends on the compressed bytes alone.
pub uninterp spec fn gunzip_ok(data: Seq<u8>) -> bool;

/// Relies on flate2's `read::GzDecoder`: reading it to the end yields the
/// decompressed stream, or an error exactly when the input is not valid
/// gzip; both are functions of the input bytes alone.
#[verifier::external_body]
fn gunzip(data: &[u8]) -> (r: Option<Vec<u8>>)
    ensures
        r is Some <==> gunzip_ok(data@),
        r matches Some(out) ==> out@ == gunzip_of(data@),
{
    let mut decoder = flate2::read::GzDecoder::new(data);
    let mut out: Vec<u8> = Vec::new();
    match decoder.read_to_end(&mut out) {
        Ok(_) => Some(out),
        Err(_) => None,
    }
}

/// The class index of item `i` of a decompressed label stream.
pub open spec fn spec_label(labels: Seq<u8>, i: int) -> usize {
    labels[LABEL_HEADER_LEN + i] as usize
}

/// The first `n` (class index, pixels) pairs of a pair of decompressed
/// label and image streams.
pub open spec fn spec_pairs(labels: Seq<u8>, images: Seq<u8>, n: int) -> Seq<(usize, Seq<u8>)> {
    Seq::new(n as nat, |i: int| (spec_label(labels, i), spec_image(images, i)))
}

/// The abstraction of one loaded dataset entry: its class index and the
/// sequence of pixel bytes it holds.
pub open spec fn pair_abs(p: (usize, Vec<u8>)) -> (usize, Seq<u8>) {
    (p.0, p.1@)
}

/// A loaded dataset, abstracted entry by entry.
pub open spec fn pairs_view(s: Seq<(usize, Vec<u8>)>) -> Seq<(usize, Seq<u8>)> {
    s.map_values(|p: (usize, Vec<u8>)| pair_abs(p))
}

/// Whether four decompressed streams hold enough bytes for `n_train`
/// training items and `TEST_SET_SIZE` test items.
pub open spec fn raw_streams_complete(
    train_images: Seq<u8>,
    train_labels: Seq<u8>,
    test_images: Seq<u8>,
    test_labels: Seq<u8>,
    n_train: int,
) -> bool {
    &&& train_labels.len() >= LABEL_HEADER_LEN + n_train
    &&& test_labels.len() >= LABEL_HEADER_LEN + TEST_SET_SIZE
    &&& train_images.len() >= IMAGE_HEADER_LEN + n_train * IMAGE_SIZE
    &&& test_images.len() >= IMAGE_HEADER_LEN + TEST_SET_SIZE * IMAGE_SIZE
}

/// Builds the training and test sets from already decompressed streams:
/// the training pairs are put into a pseudo-random order (seeded, or from OS
/// entropy when no seed is given), the test pairs keep the stream order.
pub fn load_data_raw(
    random_seed: Option<u32>,
    n_train_points: usize,
    train_images: &[u8],
    train_labels: &[u8],
    test_images: &[u8],
    test_labels: &[u8],
) -> (r: Result<(Vec<(usize, Vec<u8>)>, Vec<(usize, Vec<u8>)>), LoadError>)
    ensures
        r matches Ok(sets) ==> {
            &&& raw_streams_complete(
                train_images@,
                train_labels@,
                test_images@,
                test_labels@,
                n_train_points as int,
            )
            &&& sets.0@.len() == n_train_points
            &&& sets.1@.len() == TEST_SET_SIZE
            &&& pairs_view(sets.0@).to_multiset() == spec_pairs(
                train_labels@,
                train_images@,
                n_train_points as int,
            ).to_multiset()
            &&& pairs_view(sets.1@) == spec_pairs(test_labels@, test_images@, TEST_SET_SIZE as int)
        },
        r matches Err(e) ==> {
            &&& e == LoadError::Truncated
            &&& !raw_streams_complete(
                train_images@,
                train_labels@,
                test_images@,
                test_labels@,
                n_train_points as int,
            )
        },
{
    let train_label_bytes = match read_labels(train_labels, n_train_points) {
        Ok(l) => l,
        Err(e) => { return Err(e); },
    };
    let test_label_bytes = match read_labels(test_labels, TEST_SET_SIZE) {
        Ok(l) => l,
        Err(e) => { return Err(e); },
    };
    let train_image_list = match read_images(train_images, n_train_points) {
        Ok(l) => l,
        Err(e) => { return Err(e); },
    };
    let test_image_list = match read_images(test_images, TEST_SET_SIZE) {
        Ok(l) => l,
        Err(e) => { return Err(e); },
    };

    let mut training_set = label_image_pairs(&train_label_bytes, &train_image_list);
    let test_set = label_image_pairs(&test_label_bytes, &test_image_list);
    proof {
        assert(pairs_view(training_set@) =~= spec_pairs(
            train_labels@,
            train_images@,
            n_train_points as int,
        ));
        assert(pairs_view(test_set@) =~= spec_pairs(
            test_labels@,
            test_images@,
            TEST_SET_SIZE as int,
        ));
    }
    let ghost unshuffled = training_set@;

    let seed64 = match random_seed {
        Some(s) => Some(s as u64),
        None => None,
    };
    shuffle(&mut training_set, seed64);
    proof {
        lemma_to_multiset_map(
            training_set@,
            unshuffled,
            |p: (usize, Vec<u8>)| pair_abs(p),
        );
    }
    Ok((training_set, test_set))
}

/// Whether all four compressed streams are valid gzip, so that decoding
/// them succeeds.
pub open spec fn streams_decode(
    train_images_gz: Seq<u8>,
    train_labels_gz: Seq<u8>,
    test_images_gz: Seq<u8>,
    test_labels_gz: Seq<u8>,
) -> bool {
    &&& gunzip_ok(train_images_gz)
    &&& gunzip_ok(train_labels_gz)
    &&& gunzip_ok(test_images_gz)
    &&& gunzip_ok(test_labels_gz)
}

/// Loads the training and test sets from four gzip-compressed streams, as
/// they stand in the image/label files: each stream is decompressed, the
/// labels and images are read and paired, and the training pairs are
/// shuffled (seeded, or from OS entropy when no seed is given). Four valid
/// streams whose decoded contents are complete load successfully.
pub fn load_data(
    random_seed: Option<u32>,
    n_train_points: usize,
    train_images_gz: &[u8],
    train_labels_gz: &[u8],
    test_images_gz: &[u8],
    test_labels_gz: &[u8],
) -> (r: Result<(Vec<(usize, Vec<u8>)>, Vec<(usize, Vec<u8>)>), LoadError>)
    ensures
        r matches Ok(sets) ==> {
            &&& streams_decode(train_images_gz@, train_labels_gz@, test_images_gz@, test_labels_gz@)
            &&& raw_streams_complete(
                gunzip_of(train_images_gz@),
                gunzip_of(train_labels_gz@),
                gunzip_of(test_images_gz@),
                gunzip_of(test_labels_gz@),
                n_train_points as int,
            )
            &&& sets.0@.len() == n_train_points
            &&& sets.1@.len() == TEST_SET_SIZE
            &&& pairs_view(sets.0@).to_multiset() == spec_pairs(
                gunzip_of(train_labels_gz@),
                gunzip_of(train_images_gz@),
                n_train_points as int,
            ).to_multiset()
            &&& pairs_view(sets.1@) == spec_pairs(
                gunzip_of(test_labels_gz@),
                gunzip_of(test_images_gz@),
                TEST_SET_SIZE as int,
            )
        },
        r matches Err(e) ==> {
            &&& (e == LoadError::Corrupt || e == LoadError::Truncated)
            &&& (e == LoadError::Corrupt <==> !streams_decode(
                train_images_gz@,
                train_labels_gz@,
                test_images_gz@,
                test_labels_gz@,
            ))
            &&& (e == LoadError::Truncated ==> !raw_streams_complete(
                gunzip_of(train_images_gz@),
                gunzip_of(train_labels_gz@),
                gunzip_of(test_images_gz@),
                gunzip_of(test_labels_gz@),
                n_train_points as int,
            ))
        },
{
    let train_images = match gunzip(train_images_gz) {
        Some(v) => v,
        None => { return Err(LoadError::Corrupt); },
    };
    let train_labels = match gunzip(train_labels_gz) {
        Some(v) => v,
        None => { return Err(LoadError::Corrupt); },
    };
    let test_images = match gunzip(test_images_gz) {
        Some(v) => v,
        None => { return Err(LoadError::Corrupt); },
    };
    let test_labels = match gunzip(test_labels_gz) {
        Some(v) => v,
        None => { return Err(LoadError::Corrupt); },
    };
    load_data_raw(
        random_seed,
        n_train_points,
        train_images.as_slice(),
        train_labels.as_slice(),
        test_images.as_slice(),
        test_labels.as_slice(),
    )
}

} // verus!
