//! Digests of file contents and perceptual hashes of images.
//!
//! The BLAKE3 and SHA-256 digests come from the `blake3` and `sha2` crates,
//! the detection of a file's type from the first bytes of its contents from
//! `infer`, and perceptual image hashes from `image_hasher`. What each of
//! those computes is named, not restated.

use vstd::prelude::*;
use crate::text::opt_chars;

verus! {

#[verifier::external_type_specification]
#[verifier::external_body]
pub struct ExBlake3Hasher(blake3::Hasher);

#[verifier::external_type_specification]
#[verifier::external_body]
pub struct ExDynamicImage(image::DynamicImage);

/// The bytes fed so far to a BLAKE3 hash state.
pub uninterp spec fn blake3_fed(h: blake3::Hasher) -> Seq<u8>;

/// The BLAKE3 digest of a byte string.
pub uninterp spec fn blake3_digest(input: Seq<u8>) -> Seq<u8>;

/// The SHA-256 digest of a byte string.
pub uninterp spec fn sha256_digest(input: Seq<u8>) -> Seq<u8>;

/// The MIME type that `infer` recognizes in the first bytes of a file.
pub uninterp spec fn inferred_mime(head: Seq<u8>) -> Option<Seq<char>>;

/// Whether `image` decodes a byte string as an image in the format that a
/// file name extension names.
pub uninterp spec fn image_decodes(bytes: Seq<u8>, ext: Seq<char>) -> bool;

/// The image that `image` decodes from a byte string in the format that a
/// file name extension names, where it decodes it.
pub uninterp spec fn decoded_image(bytes: Seq<u8>, ext: Seq<char>) -> image::DynamicImage;

/// The bytes of `image_hasher`'s hash of an image under an algorithm.
pub uninterp spec fn perceptual_hash_of(img: image::DynamicImage, alg: PerceptualAlg) -> Seq<u8>;

/// `blake3::Hasher::new`: a hash state that has been fed nothing.
#[verifier::external_body]
fn blake3_new() -> (h: blake3::Hasher)
    ensures
        blake3_fed(h) == Seq::<u8>::empty(),
{
    blake3::Hasher::new()
}

/// `blake3::Hasher::update`: the state has been fed `data` after what it
/// had been fed before.
#[verifier::external_body]
fn blake3_update(h: &mut blake3::Hasher, data: &[u8])
    ensures
        blake3_fed(*final(h)) == blake3_fed(*old(h)) + data@,
{
    h.update(data);
}

/// `blake3::Hasher::finalize`, as bytes: the digest of all that the state
/// has been fed.
#[verifier::external_body]
fn blake3_finalize(h: &blake3::Hasher) -> (d: [u8; 32])
    ensures
        d@ == blake3_digest(blake3_fed(*h)),
{
    *h.finalize().as_bytes()
}

/// `sha2::Sha256::digest`, as bytes.
#[verifier::external_body]
fn sha256_of(data: &[u8]) -> (d: [u8; 32])
    ensures
        d@ == sha256_digest(data@),
{
    let out: [u8; 32] = <sha2::Sha256 as sha2::Digest>::digest(data).into();
    out
}

/// `infer::get`, reduced to the MIME type of what it recognizes.
#[verifier::external_body]
fn infer_mime(head: &[u8]) -> (r: Option<String>)
    ensures
        opt_chars(r) == inferred_mime(head@),
{
    match infer::get(head) {
        Some(kind) => Some(kind.mime_type().to_string()),
        None => None,
    }
}

/// A BLAKE3 digest computed over contents fed in chunks.
pub struct Blake3Stream {
    state: blake3::Hasher,
}

impl View for Blake3Stream {
    type V = Seq<u8>;

    /// The bytes fed so far.
    closed spec fn view(&self) -> Seq<u8> {
        blake3_fed(self.state)
    }
}

impl Blake3Stream {
    pub fn new() -> (s: Blake3Stream)
        ensures
            s@ == Seq::<u8>::empty(),
    {
        Blake3Stream { state: blake3_new() }
    }

    pub fn update(&mut self, chunk: &[u8])
        ensures
            final(self)@ == old(self)@ + chunk@,
    {
        blake3_update(&mut self.state, chunk);
    }

    /// The digest of everything fed so far.
    pub fn finish(&self) -> (d: [u8; 32])
        ensures
            d@ == blake3_digest(self@),
    {
        blake3_finalize(&self.state)
    }
}

/// The SHA-256 digest of a file's contents.
pub fn sha256_contents(contents: &[u8]) -> (d: [u8; 32])
    ensures
        d@ == sha256_digest(contents@),
{
    sha256_of(contents)
}

/// The MIME type of a file, from its first bytes (at most 8192 of them are
/// looked at by the scanner).
pub fn detect_file_type(head: &[u8]) -> (r: Option<String>)
    ensures
        opt_chars(r) == inferred_mime(head@),
{
    infer_mime(head)
}

/// The perceptual hashes a file gets: mean, gradient, and mean after a DCT.
pub enum PerceptualAlg {
    Mean,
    Gradient,
    MeanDct,
}

/// `image_hasher`'s hash of an image with the default 8x8 hash size, as
/// bytes. The crate documents a hash of `width * height` bits, 64 here,
/// packed eight to a byte; the hash depends on the image and the algorithm
/// alone.
#[verifier::external_body]
fn perceptual_hash_bytes(img: &image::DynamicImage, alg: PerceptualAlg) -> (r: Vec<u8>)
    ensures
        r@ == perceptual_hash_of(*img, alg),
        r@.len() == 8,
{
    let config = match alg {
        PerceptualAlg::Mean => image_hasher::HasherConfig::new().hash_alg(image_hasher::HashAlg::Mean),
        PerceptualAlg::Gradient => image_hasher::HasherConfig::new().hash_alg(image_hasher::HashAlg::Gradient),
        PerceptualAlg::MeanDct => image_hasher::HasherConfig::new().hash_alg(image_hasher::HashAlg::Mean).preproc_dct(),
    };
    config.to_hasher().hash_image(img).as_bytes().to_vec()
}

/// The decoding that `image::open` makes of a file, over its bytes: the
/// format is the one `image::ImageFormat::from_extension` names for the
/// extension (none, and so no image, for an extension it does not know),
/// and `image::load_from_memory_with_format` decodes in it; a failure is
/// reduced to none. Whether it decodes, and the image it gives, depend on
/// the bytes and the extension alone.
#[verifier::external_body]
fn decode_image(bytes: &[u8], ext: &str) -> (r: Option<image::DynamicImage>)
    ensures
        r is Some <==> image_decodes(bytes@, ext@),
        r matches Some(img) ==> img == decoded_image(bytes@, ext@),
{
    image::ImageFormat::from_extension(ext).and_then(|f| image::load_from_memory_with_format(bytes, f).ok())
}

/// The big-endian value of eight bytes.
pub open spec fn be_u64(b: Seq<u8>) -> int {
    b[0] * 0x100000000000000 + b[1] * 0x1000000000000 + b[2] * 0x10000000000 + b[3] * 0x100000000
        + b[4] * 0x1000000 + b[5] * 0x10000 + b[6] * 0x100 + b[7]
}

/// A 64-bit hash read from its bytes: exactly eight, most significant first.
pub fn hash_to_u64(bytes: &[u8]) -> (r: Option<u64>)
    ensures
        bytes@.len() == 8 <==> r is Some,
        r matches Some(v) ==> v == be_u64(bytes@),
{
    if bytes.len() != 8 {
        return None;
    }
    let v: u64 = (bytes[0] as u64) * 0x100000000000000 + (bytes[1] as u64) * 0x1000000000000
        + (bytes[2] as u64) * 0x10000000000 + (bytes[3] as u64) * 0x100000000
        + (bytes[4] as u64) * 0x1000000 + (bytes[5] as u64) * 0x10000 + (bytes[6] as u64) * 0x100
        + (bytes[7] as u64);
    Some(v)
}

/// The three hashes of an image from the bytes of its mean, gradient and
/// DCT-mean hashes: present when all three are eight bytes long.
pub fn hashes_from_digests(mean: &[u8], gradient: &[u8], mean_dct: &[u8]) -> (r: Option<(u64, u64, u64)>)
    ensures
        r is Some <==> (mean@.len() == 8 && gradient@.len() == 8 && mean_dct@.len() == 8),
        r matches Some(t) ==> t.0 == be_u64(mean@) && t.1 == be_u64(gradient@) && t.2 == be_u64(mean_dct@),
{
    let a = match hash_to_u64(mean) {
        Some(v) => v,
        None => return None,
    };
    let d = match hash_to_u64(gradient) {
        Some(v) => v,
        None => return None,
    };
    let p = match hash_to_u64(mean_dct) {
        Some(v) => v,
        None => return None,
    };
    Some((a, d, p))
}

/// The (ahash, dhash, phash) of an image: its mean, gradient and DCT-mean
/// hashes, each read from its eight bytes, most significant first.
pub open spec fn image_hash_triple(img: image::DynamicImage) -> (u64, u64, u64) {
    (
        be_u64(perceptual_hash_of(img, PerceptualAlg::Mean)) as u64,
        be_u64(perceptual_hash_of(img, PerceptualAlg::Gradient)) as u64,
        be_u64(perceptual_hash_of(img, PerceptualAlg::MeanDct)) as u64,
    )
}

/// The (ahash, dhash, phash) of a decoded image.
pub fn image_hashes_from_image(img: &image::DynamicImage) -> (r: Option<(u64, u64, u64)>)
    ensures
        r == Some(image_hash_triple(*img)),
{
    let a = perceptual_hash_bytes(img, PerceptualAlg::Mean);
    let d = perceptual_hash_bytes(img, PerceptualAlg::Gradient);
    let p = perceptual_hash_bytes(img, PerceptualAlg::MeanDct);
    hashes_from_digests(a.as_slice(), d.as_slice(), p.as_slice())
}

/// The (ahash, dhash, phash) of an image file's contents, decoded in the
/// format its extension `ext` names; none where they do not decode.
pub fn image_hashes_from_bytes(bytes: &[u8], ext: &str) -> (r: Option<(u64, u64, u64)>)
    ensures
        r is Some <==> image_decodes(bytes@, ext@),
        image_decodes(bytes@, ext@) ==> r == Some(image_hash_triple(decoded_image(bytes@, ext@))),
{
    match decode_image(bytes, ext) {
        Some(img) => image_hashes_from_image(&img),
        None => None,
    }
}

/// The (ahash, dhash, phash) of an AVIF snapshot; none where it does not
/// decode.
pub fn image_hashes_from_avif(bytes: &[u8]) -> (r: Option<(u64, u64, u64)>)
    ensures
        r is Some <==> image_decodes(bytes@, "avif"@),
        image_decodes(bytes@, "avif"@) ==> r == Some(image_hash_triple(decoded_image(bytes@, "avif"@))),
{
    image_hashes_from_bytes(bytes, "avif")
}

} // verus!
