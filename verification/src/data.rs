//! Labeled image data in the classic IDX layout: a label file carrying one
//! byte per example, an image file carrying fixed-size pixel blocks.  The
//! parsers work on bytes already read; where the bytes come from is the
//! surrounding tooling's business.

use vstd::prelude::*;

use crate::fixed::{Fx, SCALE};
use crate::network::ClassificationExample;

verus! {

use vstd::string::StringExecFns;

/// One labeled grayscale image.
#[derive(Clone, Debug)]
pub struct Image {
    pub pixels: Vec<u8>,
    pub label: u8,
}

impl Image {
    /// A stable digest of the image's content.  Relies on std's
    /// `DefaultHasher` (`new`, `Hash::hash`, `Hasher::finish`); nothing is
    /// promised of the digest's value.
    #[verifier::external_body]
    pub fn calculate_hash(&self) -> u64 {
        let mut hasher = std::collections::hash_map::DefaultHasher::new();
        std::hash::Hash::hash(&self.pixels, &mut hasher);
        std::hash::Hash::hash(&self.label, &mut hasher);
        std::hash::Hasher::finish(&hasher)
    }
}

impl ClassificationExample for Image {
    open spec fn input_view(self) -> Seq<int> {
        Seq::new(self.pixels@.len(), |i: int| (self.pixels@[i] * (SCALE as int)) / 255)
    }

    open spec fn category_view(self) -> int {
        self.label as int
    }

    open spec fn categories_view(self) -> int {
        10
    }

    fn get_input(&self) -> (r: Vec<Fx>) {
        let mut r: Vec<Fx> = Vec::new();
        let mut i: usize = 0;
        while i < self.pixels.len()
            invariant
                i <= self.pixels@.len(),
                r@.len() == i,
                forall|j: int|
                    0 <= j < i ==> (#[trigger] r@[j]).v() == (self.pixels@[j] * (SCALE as int))
                        / 255,
            decreases self.pixels@.len() - i,
        {
            let p = self.pixels[i];
            let raw = ((p as u64) * (SCALE as u64)) / 255;
            r.push(Fx::from_raw(raw as i64));
            i = i + 1;
        }
        r
    }

    fn get_category(&self) -> (r: usize) {
        self.label as usize
    }

    fn get_categories_count(&self) -> (r: usize) {
        10
    }
}

/// A free-standing labeled sample: an input vector with its category,
/// for callers whose data is not image-shaped.
#[derive(Clone, Debug)]
pub struct Sample {
    pub input: Vec<Fx>,
    pub category: usize,
    pub categories: usize,
}

impl ClassificationExample for Sample {
    open spec fn input_view(self) -> Seq<int> {
        Seq::new(self.input@.len(), |i: int| self.input@[i].v())
    }

    open spec fn category_view(self) -> int {
        self.category as int
    }

    open spec fn categories_view(self) -> int {
        self.categories as int
    }

    fn get_input(&self) -> (r: Vec<Fx>) {
        let mut r: Vec<Fx> = Vec::new();
        let mut i: usize = 0;
        while i < self.input.len()
            invariant
                i <= self.input@.len(),
                r@.len() == i,
                forall|j: int| 0 <= j < i ==> (#[trigger] r@[j]).v() == self.input@[j].v(),
            decreases self.input@.len() - i,
        {
            r.push(self.input[i]);
            i = i + 1;
        }
        r
    }

    fn get_category(&self) -> (r: usize) {
        self.category
    }

    fn get_categories_count(&self) -> (r: usize) {
        self.categories
    }
}

/// The big-endian 32-bit count stored at `off`.
pub open spec fn be32(b: Seq<u8>, off: int) -> int {
    b[off] * 0x1000000 + b[off + 1] * 0x10000 + b[off + 2] * 0x100 + b[off + 3]
}

/// A well-formed label file: the type byte says unsigned bytes, one
/// dimension, and the advertised count of labels is really there.
pub open spec fn labels_wf(b: Seq<u8>) -> bool {
    &&& b.len() >= 8
    &&& b[2] == 8
    &&& b[3] == 1
    &&& b.len() >= 8 + be32(b, 4)
}

/// The labels a well-formed label file carries.
pub open spec fn labels_of(b: Seq<u8>) -> Seq<u8> {
    b.subrange(8, 8 + be32(b, 4))
}

/// A well-formed image file: unsigned bytes, three dimensions, and every
/// advertised pixel block is really there.
pub open spec fn images_wf(b: Seq<u8>) -> bool {
    &&& b.len() >= 16
    &&& b[2] == 8
    &&& b[3] == 3
    &&& b.len() >= 16 + be32(b, 4) * (be32(b, 8) * be32(b, 12))
}

/// The pixel block of image `i` in a well-formed image file.
pub open spec fn image_of(b: Seq<u8>, i: int) -> Seq<u8> {
    let per = be32(b, 8) * be32(b, 12);
    b.subrange(16 + i * per, 16 + i * per + per)
}

/// Read the big-endian count at `off`.
fn read_be32(bytes: &Vec<u8>, off: usize) -> (r: u64)
    requires
        off + 4 <= bytes@.len(),
    ensures
        r as int == be32(bytes@, off as int),
        r < 0x1_0000_0000u64,
{
    let _total = bytes.len();
    let b0 = bytes[off] as u64;
    let b1 = bytes[off + 1] as u64;
    let b2 = bytes[off + 2] as u64;
    let b3 = bytes[off + 3] as u64;
    b0 * 0x1000000 + b1 * 0x10000 + b2 * 0x100 + b3
}

/// Parse a label file: check its type and dimension bytes, then hand out
/// exactly the advertised labels.
pub fn parse_labels(bytes: &Vec<u8>) -> (r: Result<Vec<u8>, String>)
    ensures
        r is Ok <==> labels_wf(bytes@),
        r is Ok ==> r->Ok_0@ =~= labels_of(bytes@),
{
    if bytes.len() < 8 {
        return Err(String::from_str("could not read the label header"));
    }
    if bytes[2] != 8 {
        return Err(String::from_str("unexpected encoding in the label file"));
    }
    if bytes[3] != 1 {
        return Err(String::from_str("unexpected dimensions in the label file"));
    }
    let n = read_be32(bytes, 4);
    if (bytes.len() as u64) < 8 + n {
        return Err(String::from_str("could not read the labels"));
    }
    let count = n as usize;
    let labels = vstd::slice::slice_to_vec(
        vstd::slice::slice_subrange(bytes.as_slice(), 8, 8 + count),
    );
    Ok(labels)
}

/// Parse an image file: check its type and dimension bytes, then cut one
/// pixel block per advertised image.
pub fn parse_images(bytes: &Vec<u8>) -> (r: Result<Vec<Vec<u8>>, String>)
    ensures
        r is Ok <==> images_wf(bytes@),
        r is Ok ==> {
            &&& r->Ok_0@.len() == be32(bytes@, 4)
            &&& forall|i: int|
                0 <= i < r->Ok_0@.len() ==> (#[trigger] r->Ok_0@[i])@ =~= image_of(bytes@, i)
        },
{
    if bytes.len() < 16 {
        return Err(String::from_str("could not read the image header"));
    }
    if bytes[2] != 8 {
        return Err(String::from_str("unexpected encoding in the image file"));
    }
    if bytes[3] != 3 {
        return Err(String::from_str("unexpected dimensions in the image file"));
    }
    let total_len = bytes.len();
    let n = read_be32(bytes, 4);
    let w = read_be32(bytes, 8);
    let h = read_be32(bytes, 12);
    proof {
        assert((w as u128) * (h as u128) < 0x1_0000_0000_0000_0000u128) by (nonlinear_arith)
            requires w < 0x1_0000_0000u64, h < 0x1_0000_0000u64;
    }
    let per: u128 = (w as u128) * (h as u128);
    proof {
        assert((n as u128) * per <= 0x1_0000_0000u128 * 0x1_0000_0000_0000_0000u128)
            by (nonlinear_arith)
            requires n < 0x1_0000_0000u64, per < 0x1_0000_0000_0000_0000u128;
    }
    let needed: u128 = 16 + (n as u128) * per;
    if (bytes.len() as u128) < needed {
        proof {
            assert(bytes@.len() < 16 + be32(bytes@, 4) * (be32(bytes@, 8) * be32(bytes@, 12)));
        }
        return Err(String::from_str("could not read the images"));
    }
    if n == 0 {
        let images: Vec<Vec<u8>> = Vec::new();
        return Ok(images);
    }
    let count = n as usize;
    proof {
        assert(per <= (n as u128) * per) by (nonlinear_arith)
            requires n >= 1, per >= 0;
        assert(16 + (n as int) * ((w as int) * (h as int)) <= bytes@.len());
        assert((n as int) * ((w as int) * (h as int)) >= 0) by (nonlinear_arith);
    }
    let per_usize = per as usize;
    proof {
        assert(per as int == (w as int) * (h as int));
    }
    let mut images: Vec<Vec<u8>> = Vec::new();
    let mut i: usize = 0;
    while i < count
        invariant
            i <= count,
            count as int == be32(bytes@, 4),
            per_usize as int == be32(bytes@, 8) * be32(bytes@, 12),
            per_usize >= 0,
            16 + count * per_usize <= bytes@.len(),
            bytes@.len() == total_len,
            images@.len() == i,
            forall|j: int| 0 <= j < i ==> (#[trigger] images@[j])@ =~= image_of(bytes@, j),
        decreases count - i,
    {
        proof {
            assert((i + 1) * per_usize <= count * per_usize && i * per_usize >= 0 && (i + 1)
                * per_usize == i * per_usize + per_usize) by (nonlinear_arith)
                requires 0 <= i < count, per_usize >= 0;
        }
        let start = 16 + i * per_usize;
        let img = vstd::slice::slice_to_vec(
            vstd::slice::slice_subrange(bytes.as_slice(), start, start + per_usize),
        );
        images.push(img);
        i = i + 1;
    }
    Ok(images)
}

/// Pair the images of one file with the labels of another.  Fails when
/// either file is malformed, when the counts disagree, and when a label
/// does not name one of the ten categories.
pub fn read_images_and_labels(images_bytes: &Vec<u8>, labels_bytes: &Vec<u8>) -> (r: Result<
    Vec<Image>,
    String,
>)
    ensures
        r is Ok <==> (images_wf(images_bytes@) && labels_wf(labels_bytes@) && be32(
            images_bytes@,
            4,
        ) == labels_of(labels_bytes@).len() && (forall|i: int|
            0 <= i < labels_of(labels_bytes@).len() ==> (#[trigger] labels_of(labels_bytes@)[i])
                < 10)),
        r is Ok ==> {
            &&& images_wf(images_bytes@)
            &&& labels_wf(labels_bytes@)
            &&& be32(images_bytes@, 4) == labels_of(labels_bytes@).len()
            &&& r->Ok_0@.len() == be32(images_bytes@, 4)
            &&& forall|i: int|
                0 <= i < r->Ok_0@.len() ==> {
                    &&& (#[trigger] r->Ok_0@[i]).pixels@ =~= image_of(images_bytes@, i)
                    &&& r->Ok_0@[i].label == labels_of(labels_bytes@)[i]
                    &&& r->Ok_0@[i].label < 10
                }
        },
{
    let images = match parse_images(images_bytes) {
        Err(e) => {
            return Err(e);
        },
        Ok(v) => v,
    };
    let labels = match parse_labels(labels_bytes) {
        Err(e) => {
            return Err(e);
        },
        Ok(v) => v,
    };
    if images.len() != labels.len() {
        return Err(String::from_str("the image count does not match the label count"));
    }
    let mut out: Vec<Image> = Vec::new();
    let mut i: usize = 0;
    while i < labels.len()
        invariant
            i <= labels@.len(),
            images@.len() == labels@.len(),
            images@.len() == be32(images_bytes@, 4),
            labels@ =~= labels_of(labels_bytes@),
            forall|j: int|
                0 <= j < images@.len() ==> (#[trigger] images@[j])@ =~= image_of(images_bytes@, j),
            out@.len() == i,
            forall|j: int|
                0 <= j < i ==> {
                    &&& (#[trigger] out@[j]).pixels@ =~= image_of(images_bytes@, j)
                    &&& out@[j].label == labels_of(labels_bytes@)[j]
                    &&& out@[j].label < 10
                },
        decreases labels@.len() - i,
    {
        let label = labels[i];
        if label >= 10 {
            proof {
                assert(labels_of(labels_bytes@)[i as int] >= 10);
            }
            return Err(String::from_str("a label does not name one of the ten categories"));
        }
        let pixels = vstd::slice::slice_to_vec(images[i].as_slice());
        out.push(Image { pixels, label });
        i = i + 1;
    }
    proof {
        assert forall|j: int|
            0 <= j < labels_of(labels_bytes@).len() implies (#[trigger] labels_of(
            labels_bytes@,
        )[j]) < 10 by {
            assert(out@[j].label == labels_of(labels_bytes@)[j]);
            assert(out@[j].label < 10);
        }
    }
    Ok(out)
}

} // verus!
