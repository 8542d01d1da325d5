//! Decoding of the two-file image/label dataset format.
//!
//! Both files start with a big-endian magic number and a big-endian item
//! count.  A label file continues with one byte per item.  An image file
//! continues with a row count and a column count, then one block of
//! `IMAGE_LEN` bytes per item.  Bytes after the last announced item are
//! ignored.
use vstd::prelude::*;

verus! {

/// Magic number that opens an image file.
pub const IMAGE_MAGIC: u32 = 2051;

/// Magic number that opens a label file.
pub const LABEL_MAGIC: u32 = 2049;

/// Rows, and columns, of every image.
pub const IMAGE_SIDE: u32 = 28;

/// Bytes in one image.
pub const IMAGE_LEN: usize = 784;

/// Length of a label file's header.
pub const LABEL_HEADER_LEN: usize = 8;

/// Length of an image file's header.
pub const IMAGE_HEADER_LEN: usize = 16;

/// Why a pair of dataset files could not be decoded.
#[derive(Debug, Clone, Copy, PartialEq, Eq)]
pub enum LoadError {
    /// The bytes ended before a header field or an announced item was complete.
    IO,
    /// The image file does not start with `IMAGE_MAGIC`.
    IMagicMismatch,
    /// The label file does not start with `LABEL_MAGIC`.
    LMagicMismatch,
}

/// Labels and images of a dataset, item `i` of one belonging to item `i` of the other.
#[derive(Debug)]
pub struct Dataset {
    pub labels: Vec<u8>,
    pub images: Vec<[u8; IMAGE_LEN]>,
}

/// The big-endian number held in the four bytes of `bytes` that start at `at`.
pub open spec fn be_u32(bytes: Seq<u8>, at: int) -> int {
    bytes[at] * 0x100_0000 + bytes[at + 1] * 0x1_0000 + bytes[at + 2] * 0x100 + bytes[at + 3]
}

/// What a label file decodes to.
pub open spec fn labels_of(bytes: Seq<u8>) -> Result<Seq<u8>, LoadError> {
    if bytes.len() < 4 {
        Err(LoadError::IO)
    } else if be_u32(bytes, 0) != LABEL_MAGIC {
        Err(LoadError::LMagicMismatch)
    } else if bytes.len() < LABEL_HEADER_LEN + be_u32(bytes, 4) {
        Err(LoadError::IO)
    } else {
        Ok(bytes.subrange(LABEL_HEADER_LEN as int, LABEL_HEADER_LEN + be_u32(bytes, 4)))
    }
}

/// True unless `bytes` holds a complete image header whose magic number is
/// right and whose row or column count is not `IMAGE_SIDE`.
pub open spec fn image_dims_ok(bytes: Seq<u8>) -> bool {
    bytes.len() >= IMAGE_HEADER_LEN && be_u32(bytes, 0) == IMAGE_MAGIC ==> be_u32(bytes, 8)
        == IMAGE_SIDE && be_u32(bytes, 12) == IMAGE_SIDE
}

/// Image `i` of an image file whose header is sound.
pub open spec fn image_at(bytes: Seq<u8>, i: int) -> Seq<u8> {
    bytes.subrange(IMAGE_HEADER_LEN + i * IMAGE_LEN, IMAGE_HEADER_LEN + (i + 1) * IMAGE_LEN)
}

/// What an image file with the expected dimensions decodes to.
pub open spec fn images_of(bytes: Seq<u8>) -> Result<Seq<Seq<u8>>, LoadError> {
    if bytes.len() < 4 {
        Err(LoadError::IO)
    } else if be_u32(bytes, 0) != IMAGE_MAGIC {
        Err(LoadError::IMagicMismatch)
    } else if bytes.len() < IMAGE_HEADER_LEN + be_u32(bytes, 4) * IMAGE_LEN {
        Err(LoadError::IO)
    } else {
        Ok(Seq::new(be_u32(bytes, 4) as nat, |i: int| image_at(bytes, i)))
    }
}

/// The images of a vector as sequences of bytes.
pub open spec fn image_seqs(images: Seq<[u8; IMAGE_LEN]>) -> Seq<Seq<u8>> {
    Seq::new(images.len(), |i: int| images[i]@)
}

/// True unless both files decode and announce different numbers of items.
pub open spec fn counts_agree(im_bytes: Seq<u8>, lbl_bytes: Seq<u8>) -> bool {
    images_of(im_bytes) is Ok && labels_of(lbl_bytes) is Ok ==> images_of(im_bytes).unwrap().len()
        == labels_of(lbl_bytes).unwrap().len()
}

/// What a pair of files decodes to: the image file is looked at first, so its
/// error wins.
pub open spec fn dataset_of(im_bytes: Seq<u8>, lbl_bytes: Seq<u8>) -> Result<
    (Seq<Seq<u8>>, Seq<u8>),
    LoadError,
> {
    match images_of(im_bytes) {
        Err(e) => Err(e),
        Ok(images) => match labels_of(lbl_bytes) {
            Err(e) => Err(e),
            Ok(labels) => Ok((images, labels)),
        },
    }
}

/// Reads the big-endian number at `at`, or nothing where fewer than four bytes are left.
fn read_be_u32(bytes: &[u8], at: usize) -> (r: Option<u32>)
    requires
        at <= 12,
    ensures
        r == if at + 4 <= bytes@.len() {
            Some(be_u32(bytes@, at as int) as u32)
        } else {
            None::<u32>
        },
        at + 4 <= bytes@.len() ==> 0 <= be_u32(bytes@, at as int) <= u32::MAX,
{
    if bytes.len() < at + 4 {
        return None;
    }
    let b0: u32 = bytes[at] as u32;
    let b1: u32 = bytes[at + 1] as u32;
    let b2: u32 = bytes[at + 2] as u32;
    let b3: u32 = bytes[at + 3] as u32;
    Some(b0 * 0x100_0000 + b1 * 0x1_0000 + b2 * 0x100 + b3)
}

/// Decodes a label file.
pub fn read_labels(bytes: &[u8]) -> (r: Result<Vec<u8>, LoadError>)
    ensures
        match r {
            Ok(labels) => labels_of(bytes@) == Ok::<Seq<u8>, LoadError>(labels@),
            Err(e) => labels_of(bytes@) == Err::<Seq<u8>, LoadError>(e),
        },
{
    let magic: u32 = match read_be_u32(bytes, 0) {
        Some(v) => v,
        None => {
            return Err(LoadError::IO);
        },
    };
    if magic != LABEL_MAGIC {
        return Err(LoadError::LMagicMismatch);
    }
    let n_items: u32 = match read_be_u32(bytes, 4) {
        Some(v) => v,
        None => {
            return Err(LoadError::IO);
        },
    };
    if (bytes.len() as u64) < LABEL_HEADER_LEN as u64 + n_items as u64 {
        return Err(LoadError::IO);
    }
    let n: usize = n_items as usize;
    let total: usize = bytes.len();
    let mut items: Vec<u8> = Vec::with_capacity(n);
    for i in 0..n
        invariant
            total == bytes@.len(),
            LABEL_HEADER_LEN + n <= total,
            items@ == bytes@.subrange(LABEL_HEADER_LEN as int, LABEL_HEADER_LEN + i),
    {
        items.push(bytes[LABEL_HEADER_LEN + i]);
        assert(items@ == bytes@.subrange(LABEL_HEADER_LEN as int, LABEL_HEADER_LEN + i + 1));
    }
    Ok(items)
}

/// Tells whether the dimensions in an image file's header are the expected ones.
pub fn dims_are_expected(bytes: &[u8]) -> (b: bool)
    ensures
        b == image_dims_ok(bytes@),
{
    if bytes.len() < IMAGE_HEADER_LEN {
        return true;
    }
    let magic: Option<u32> = read_be_u32(bytes, 0);
    let rows: Option<u32> = read_be_u32(bytes, 8);
    let cols: Option<u32> = read_be_u32(bytes, 12);
    magic != Some(IMAGE_MAGIC) || (rows == Some(IMAGE_SIDE) && cols == Some(IMAGE_SIDE))
}

/// Decodes an image file whose header gives the expected dimensions.
pub fn read_images(bytes: &[u8]) -> (r: Result<Vec<[u8; IMAGE_LEN]>, LoadError>)
    requires
        image_dims_ok(bytes@),
    ensures
        match r {
            Ok(images) => images_of(bytes@) == Ok::<Seq<Seq<u8>>, LoadError>(image_seqs(images@)),
            Err(e) => images_of(bytes@) == Err::<Seq<Seq<u8>>, LoadError>(e),
        },
{
    let magic: u32 = match read_be_u32(bytes, 0) {
        Some(v) => v,
        None => {
            return Err(LoadError::IO);
        },
    };
    if magic != IMAGE_MAGIC {
        return Err(LoadError::IMagicMismatch);
    }
    let n_items: u32 = match read_be_u32(bytes, 4) {
        Some(v) => v,
        None => {
            return Err(LoadError::IO);
        },
    };
    if (bytes.len() as u64) < IMAGE_HEADER_LEN as u64 + n_items as u64 * IMAGE_LEN as u64 {
        return Err(LoadError::IO);
    }
    let n: usize = n_items as usize;
    let total: usize = bytes.len();
    let mut items: Vec<[u8; IMAGE_LEN]> = Vec::with_capacity(n);
    for i in 0..n
        invariant
            total == bytes@.len(),
            IMAGE_HEADER_LEN + n * IMAGE_LEN <= total,
            items@.len() == i,
            forall|q: int| 0 <= q < i ==> (#[trigger] items@[q])@ == image_at(bytes@, q),
    {
        assert((i + 1) * IMAGE_LEN <= n * IMAGE_LEN) by (nonlinear_arith)
            requires
                i < n,
        ;
        let start: usize = IMAGE_HEADER_LEN + i * IMAGE_LEN;
        let mut im: [u8; IMAGE_LEN] = [0u8; IMAGE_LEN];
        for j in 0..IMAGE_LEN
            invariant
                total == bytes@.len(),
                start == IMAGE_HEADER_LEN + i * IMAGE_LEN,
                start + IMAGE_LEN <= total,
                forall|q: int| 0 <= q < j ==> im@[q] == bytes@[start + q],
        {
            im[j] = bytes[start + j];
        }
        assert(im@ == image_at(bytes@, i as int));
        items.push(im);
    }
    assert(image_seqs(items@) == Seq::new(n as nat, |i: int| image_at(bytes@, i)));
    Ok(items)
}

/// The number of images that an image file holds, where it decodes.
fn image_count(bytes: &[u8]) -> (r: Option<u32>)
    ensures
        match r {
            Some(count) => images_of(bytes@) is Ok && images_of(bytes@).unwrap().len() == count,
            None => images_of(bytes@) is Err,
        },
{
    let magic: Option<u32> = read_be_u32(bytes, 0);
    let n_items: Option<u32> = read_be_u32(bytes, 4);
    match (magic, n_items) {
        (Some(magic), Some(n_items)) => {
            if magic == IMAGE_MAGIC && bytes.len() as u64 >= IMAGE_HEADER_LEN as u64
                + n_items as u64 * IMAGE_LEN as u64 {
                Some(n_items)
            } else {
                None
            }
        },
        _ => None,
    }
}

/// The number of labels that a label file holds, where it decodes.
fn label_count(bytes: &[u8]) -> (r: Option<u32>)
    ensures
        match r {
            Some(count) => labels_of(bytes@) is Ok && labels_of(bytes@).unwrap().len() == count,
            None => labels_of(bytes@) is Err,
        },
{
    let magic: Option<u32> = read_be_u32(bytes, 0);
    let n_items: Option<u32> = read_be_u32(bytes, 4);
    match (magic, n_items) {
        (Some(magic), Some(n_items)) => {
            if magic == LABEL_MAGIC && bytes.len() as u64 >= LABEL_HEADER_LEN as u64
                + n_items as u64 {
                Some(n_items)
            } else {
                None
            }
        },
        _ => None,
    }
}

/// Tells whether an image file and a label file can stand in one dataset:
/// whether, where both decode, they hold the same number of items.
pub fn counts_match(im_bytes: &[u8], lbl_bytes: &[u8]) -> (b: bool)
    ensures
        b == counts_agree(im_bytes@, lbl_bytes@),
{
    match (image_count(im_bytes), label_count(lbl_bytes)) {
        (Some(images), Some(labels)) => images == labels,
        _ => true,
    }
}

impl Dataset {
    /// Decodes an image file and a label file into one dataset.
    pub fn new(im_bytes: &[u8], lbl_bytes: &[u8]) -> (r: Result<Dataset, LoadError>)
        requires
            image_dims_ok(im_bytes@),
            counts_agree(im_bytes@, lbl_bytes@),
        ensures
            match r {
                Ok(ds) => dataset_of(im_bytes@, lbl_bytes@) == Ok::<
                    (Seq<Seq<u8>>, Seq<u8>),
                    LoadError,
                >((image_seqs(ds.images@), ds.labels@)) && ds.images@.len() == ds.labels@.len(),
                Err(e) => dataset_of(im_bytes@, lbl_bytes@) == Err::<
                    (Seq<Seq<u8>>, Seq<u8>),
                    LoadError,
                >(e),
            },
    {
        let images: Vec<[u8; IMAGE_LEN]> = match read_images(im_bytes) {
            Ok(v) => v,
            Err(e) => {
                return Err(e);
            },
        };
        let labels: Vec<u8> = match read_labels(lbl_bytes) {
            Ok(v) => v,
            Err(e) => {
                return Err(e);
            },
        };
        Ok(Dataset { images, labels })
    }
}

} // verus!
