//! Clipboard images: the pixel hash, the on-disk layout, the size check, the
//! thumbnail geometry, and PNG encoding and decoding.
//!
//! Layout: `<dir>/<hash>.png` (the original, lossless) and
//! `<dir>/<hash>.thumb.png` (the list thumbnail). [`hash_image`] is the one
//! definition of an image's hash: the capture side and the paste side both
//! use it, so that the self-write mark set when pasting an image matches the
//! capture of that same image.

use vstd::prelude::*;
use vstd::string::*;

use crate::digest::{blake3_hex, blake3_hex_of, is_lower_hex};
use crate::error::{AppError, IoKind};
use image::ImageEncoder;

verus! {

/// Name of the image directory, beside the history database.
pub const IMAGE_DIR_NAME: &'static str = "clipboard-images";

/// Longest edge of a thumbnail, in pixels: images are only ever shrunk.
pub const THUMBNAIL_MAX_EDGE: u32 = 200;

/// An image as RGBA8 pixels, row by row (four bytes per pixel).
#[derive(Debug)]
pub struct ImageData {
    /// Width in pixels.
    pub width: usize,
    /// Height in pixels.
    pub height: usize,
    /// The pixels.
    pub bytes: Vec<u8>,
}

/// The metadata of an image stored on disk, for its history row.
#[derive(Debug)]
pub struct StoredImage {
    /// Pixel hash, the deduplication key.
    pub hash: String,
    /// Path of the original PNG.
    pub image_path: String,
    /// Path of the thumbnail PNG.
    pub thumbnail_path: String,
    /// Width in pixels.
    pub width: u32,
    /// Height in pixels.
    pub height: u32,
}

/// An image ready to be written to disk: its metadata and the two PNG files'
/// contents.
#[derive(Debug)]
pub struct EncodedImage {
    /// Where the files go and what the row records.
    pub stored: StoredImage,
    /// Contents of the original PNG.
    pub original_png: Vec<u8>,
    /// Contents of the thumbnail PNG.
    pub thumbnail_png: Vec<u8>,
}

/// The four little-endian bytes of `x`.
pub open spec fn u32_le(x: u32) -> Seq<u8> {
    seq![(x % 256) as u8, ((x / 256) % 256) as u8, ((x / 65536) % 256) as u8, (x / 16777216) as u8]
}

/// The hash of an image: BLAKE3 over width, height (both as little-endian
/// `u32`) and the RGBA bytes, in hex. Width and height take part so that
/// equal bytes laid out differently hash differently.
pub open spec fn image_hash(width: u32, height: u32, rgba: Seq<u8>) -> Seq<char> {
    blake3_hex(u32_le(width) + u32_le(height) + rgba)
}

fn push_u32_le(buf: &mut Vec<u8>, x: u32)
    ensures
        final(buf)@ == old(buf)@ + u32_le(x),
{
    buf.push((x % 256) as u8);
    buf.push(((x / 256) % 256) as u8);
    buf.push(((x / 65536) % 256) as u8);
    buf.push((x / 16777216) as u8);
    assert(buf@ =~= old(buf)@ + u32_le(x));
}

/// The hash of an image (see [`image_hash`]).
pub fn hash_image(width: u32, height: u32, rgba: &[u8]) -> (r: String)
    ensures
        r@ == image_hash(width, height, rgba@),
        r@ == blake3_hex(u32_le(width) + u32_le(height) + rgba@),
        r@.len() == 64,
        is_lower_hex(r@),
{
    let mut buf: Vec<u8> = Vec::new();
    push_u32_le(&mut buf, width);
    push_u32_le(&mut buf, height);
    let ghost head = buf@;
    for i in 0..rgba.len()
        invariant
            buf@ == head + rgba@.take(i as int),
    {
        buf.push(rgba[i]);
        assert(buf@ =~= head + rgba@.take(i as int + 1));
    }
    assert(rgba@.take(rgba@.len() as int) =~= rgba@);
    blake3_hex_of(buf.as_slice())
}

/// `dir` and `name` joined as `Path::join` joins a plain file name on a
/// platform whose main separator is `sep`: `name` alone when `dir` is empty,
/// `dir` and `name` when `dir` already ends with a separator (`/` on every
/// platform, or `sep`), and `dir`, `sep` and `name` otherwise.
pub open spec fn join_path(dir: Seq<char>, name: Seq<char>, sep: char) -> Seq<char> {
    if dir.len() == 0 {
        name
    } else if dir.last() == '/' || dir.last() == sep {
        dir + name
    } else {
        dir + seq![sep] + name
    }
}

/// The paths of an image's original and thumbnail in `dir`, with `sep` as
/// the separator.
pub open spec fn image_paths(dir: Seq<char>, hash: Seq<char>, sep: char) -> (Seq<char>, Seq<char>) {
    (join_path(dir, hash + ".png"@, sep), join_path(dir, hash + ".thumb.png"@, sep))
}

/// Reads `std::path::MAIN_SEPARATOR`, the platform's main path separator
/// (`/` on Unix, `\` on Windows). It is fixed per platform, so nothing is
/// claimed of its value.
#[verifier::external_body]
fn main_separator() -> (c: char) {
    std::path::MAIN_SEPARATOR
}

/// `String::push` appends the character to the end of the string, as its
/// documentation says.
pub assume_specification[ String::push ](s: &mut String, ch: char)
    ensures
        final(s)@ == old(s)@.push(ch),
;

fn join_path_exec(dir: &str, name: &str, sep: char) -> (r: String)
    ensures
        r@ == join_path(dir@, name@, sep),
{
    let n = dir.unicode_len();
    if n == 0 {
        return name.to_owned();
    }
    let last = dir.get_char(n - 1);
    let mut r = dir.to_owned();
    if last != '/' && last != sep {
        r.push(sep);
    }
    r.append(name);
    r
}

/// The paths of an image's original and thumbnail in `dir`, joined with the
/// separator `sep`: `(<dir><sep><hash>.png, <dir><sep><hash>.thumb.png)`.
pub fn paths_in(dir: &str, hash: &str, sep: char) -> (r: (String, String))
    ensures
        (r.0@, r.1@) == image_paths(dir@, hash@, sep),
{
    let mut original = hash.to_owned();
    original.append(".png");
    let mut thumbnail = hash.to_owned();
    thumbnail.append(".thumb.png");
    proof {
        reveal_strlit(".png");
        reveal_strlit(".thumb.png");
    }
    (join_path_exec(dir, original.as_str(), sep), join_path_exec(dir, thumbnail.as_str(), sep))
}

/// The paths of an image's original and thumbnail in `dir`, joined with the
/// platform's main separator (see [`paths_in`]). This is what `Path::join`
/// gives for the hex hashes that name images; it differs for a `dir` that is
/// a bare Windows drive (`C:`, which `Path::join` extends without a
/// separator) and for a `hash` that is itself a path.
pub fn paths_for(dir: &str, hash: &str) -> (r: (String, String))
    ensures
        exists|sep: char| #![trigger image_paths(dir@, hash@, sep)] (r.0@, r.1@) == image_paths(dir@, hash@, sep),
{
    let sep = main_separator();
    paths_in(dir, hash, sep)
}

/// The image's size is usable: both edges fit in `u32` and there are exactly
/// four bytes per pixel.
pub open spec fn dims_ok(width: usize, height: usize, len: nat) -> bool {
    &&& width <= u32::MAX
    &&& height <= u32::MAX
    &&& width * height * 4 == len
}

/// The error of a failed size check: the kind and message of the first
/// check that fails (width, then height, then the byte count).
pub open spec fn dimension_error(width: usize, height: usize) -> (IoKind, Seq<char>) {
    if width > u32::MAX {
        (IoKind::InvalidInput, "图片宽度超出范围"@)
    } else if height > u32::MAX {
        (IoKind::InvalidInput, "图片高度超出范围"@)
    } else {
        (IoKind::InvalidData, "图片像素字节数与宽高不匹配"@)
    }
}

/// Checks the image's size (see [`dims_ok`]) and returns its edges as `u32`;
/// a failure is the error that [`dimension_error`] names.
pub fn dimensions(image: &ImageData) -> (r: Result<(u32, u32), AppError>)
    ensures
        r is Ok <==> dims_ok(image.width, image.height, image.bytes@.len()),
        match r {
            Ok((w, h)) => w == image.width && h == image.height,
            Err(e) => e matches AppError::Io(k, m) && (k, m@) == dimension_error(image.width, image.height),
        },
{
    if image.width > u32::MAX as usize {
        return Err(AppError::Io(IoKind::InvalidInput, String::from_str("图片宽度超出范围")));
    }
    if image.height > u32::MAX as usize {
        return Err(AppError::Io(IoKind::InvalidInput, String::from_str("图片高度超出范围")));
    }
    let width = image.width as u32;
    let height = image.height as u32;
    assert(width == image.width && height == image.height);
    let byte_len = image.bytes.len();
    let mismatch = AppError::Io(IoKind::InvalidData, String::from_str("图片像素字节数与宽高不匹配"));
    match (width as usize).checked_mul(height as usize) {
        Some(pixels) => match pixels.checked_mul(4) {
            Some(len) => {
                assert(len == image.width * image.height * 4);
                if len != byte_len {
                    return Err(mismatch);
                }
                Ok((width, height))
            },
            None => {
                assert(image.width * image.height * 4 > usize::MAX) by (nonlinear_arith)
                    requires
                        pixels == image.width * image.height,
                        pixels * 4 > usize::MAX,
                ;
                Err(mismatch)
            },
        },
        None => {
            assert(image.width * image.height * 4 > usize::MAX) by (nonlinear_arith)
                requires
                    image.width * image.height > usize::MAX,
            ;
            Err(mismatch)
        },
    }
}

/// An edge of a thumbnail: `edge * 200 / longest` rounded to the nearest
/// integer, and at least 1. The ratio is computed exactly in integers, so an
/// exact half (a 464 × 145 image's short edge, 62.5) rounds up; a
/// floating-point product of `edge` and `200 / longest` lands just beside
/// such a half and may round it down (to 62 there).
pub open spec fn scaled_edge(edge: u32, longest: u32) -> u32 {
    let r = (edge * 400 + longest) / (2 * longest);
    if r < 1 {
        1
    } else {
        r as u32
    }
}

/// The thumbnail size of a `width × height` image: when the longest edge
/// exceeds [`THUMBNAIL_MAX_EDGE`] both edges scale by the same factor so that
/// the longest becomes [`THUMBNAIL_MAX_EDGE`], each at least one pixel;
/// smaller images keep their size.
pub open spec fn thumb_dims(width: u32, height: u32) -> (u32, u32) {
    let longest = if width >= height { width } else { height };
    if longest <= THUMBNAIL_MAX_EDGE {
        (width, height)
    } else {
        (scaled_edge(width, longest), scaled_edge(height, longest))
    }
}

fn scaled_edge_exec(edge: u32, longest: u32) -> (r: u32)
    requires
        edge <= longest,
        longest > THUMBNAIL_MAX_EDGE,
    ensures
        r == scaled_edge(edge, longest),
        1 <= r <= THUMBNAIL_MAX_EDGE,
{
    let e = edge as u64;
    let l = longest as u64;
    assert(e * 400 + l <= 401 * l) by (nonlinear_arith)
        requires
            e <= l,
    ;
    assert(401 * l <= 401 * 4294967295u64) by (nonlinear_arith)
        requires
            l <= 4294967295u64,
    ;
    let q = (e * 400 + l) / (2 * l);
    assert(q <= 200) by (nonlinear_arith)
        requires
            q == (e * 400 + l) / (2 * l),
            e * 400 + l <= 401 * l,
            l > 200,
    ;
    if q < 1 {
        1
    } else {
        q as u32
    }
}

/// The thumbnail size of a `width × height` image (see [`thumb_dims`]).
pub fn thumbnail_size(width: u32, height: u32) -> (r: (u32, u32))
    ensures
        r == thumb_dims(width, height),
        r.0 <= THUMBNAIL_MAX_EDGE,
        r.1 <= THUMBNAIL_MAX_EDGE,
{
    let longest = if width >= height { width } else { height };
    if longest <= THUMBNAIL_MAX_EDGE {
        return (width, height);
    }
    (scaled_edge_exec(width, longest), scaled_edge_exec(height, longest))
}

/// The PNG that the `image` crate's encoder writes for `width × height` RGBA8
/// pixels with fast compression and adaptive filtering.
pub uninterp spec fn png_fast(width: u32, height: u32, rgba: Seq<u8>) -> Seq<u8>;

/// The PNG that the `image` crate's default PNG encoder writes for
/// `width × height` RGBA8 pixels.
pub uninterp spec fn png_default(width: u32, height: u32, rgba: Seq<u8>) -> Seq<u8>;

/// The RGBA8 pixels of the `new_width × new_height` thumbnail that
/// `image::imageops::thumbnail` makes of a `width × height` image.
pub uninterp spec fn thumbnail_pixels(width: u32, height: u32, rgba: Seq<u8>, new_width: u32, new_height: u32) -> Seq<u8>;

/// Width, height and RGBA8 pixels of the image that `image::load_from_memory`
/// decodes from `bytes` (the format guessed from the bytes) after conversion
/// with `into_rgba8`; `None` where decoding fails.
pub uninterp spec fn decoded_rgba8(bytes: Seq<u8>) -> Option<(u32, u32, Seq<u8>)>;

/// Calls `PngEncoder::new_with_quality(.., CompressionType::Fast,
/// FilterType::Adaptive).write_image(.., ExtendedColorType::Rgba8)` into a
/// buffer. The contract claims that the encoder succeeds exactly when both
/// edges are non-zero (the `png` writer refuses a zero width or height, and
/// writing into memory cannot fail otherwise), and that a success returns
/// the encoder's output for these arguments. The encoder panics unless the
/// buffer holds four bytes per pixel, hence the precondition.
#[verifier::external_body]
fn encode_png_fast(width: u32, height: u32, rgba: &[u8]) -> (r: Result<Vec<u8>, String>)
    requires
        rgba@.len() == width * height * 4,
    ensures
        r is Ok <==> (width > 0 && height > 0),
        r matches Ok(png) ==> png@ == png_fast(width, height, rgba@),
{
    let mut out: Vec<u8> = Vec::new();
    let encoder = image::codecs::png::PngEncoder::new_with_quality(
        &mut out,
        image::codecs::png::CompressionType::Fast,
        image::codecs::png::FilterType::Adaptive,
    );
    match encoder.write_image(rgba, width, height, image::ExtendedColorType::Rgba8) {
        Ok(()) => Ok(out),
        Err(err) => Err(err.to_string()),
    }
}

/// Calls `PngEncoder::new(..).write_image(.., ExtendedColorType::Rgba8)`
/// into a buffer (the encoder that `save_with_format(.., ImageFormat::Png)`
/// uses). The contract claims that the encoder succeeds exactly when both
/// edges are non-zero, as for [`encode_png_fast`], and that a success returns
/// the encoder's output for these arguments. The encoder panics unless the
/// buffer holds four bytes per pixel.
#[verifier::external_body]
fn encode_png_default(width: u32, height: u32, rgba: &[u8]) -> (r: Result<Vec<u8>, String>)
    requires
        rgba@.len() == width * height * 4,
    ensures
        r is Ok <==> (width > 0 && height > 0),
        r matches Ok(png) ==> png@ == png_default(width, height, rgba@),
{
    let mut out: Vec<u8> = Vec::new();
    let encoder = image::codecs::png::PngEncoder::new(&mut out);
    match encoder.write_image(rgba, width, height, image::ExtendedColorType::Rgba8) {
        Ok(()) => Ok(out),
        Err(err) => Err(err.to_string()),
    }
}

/// Calls `image::imageops::thumbnail` on the pixels viewed as an RGBA8
/// buffer (`ImageBuffer::from_raw`, which succeeds for a buffer of exactly
/// four bytes per pixel). The contract claims that the result is the
/// thumbnail's pixels, four bytes per pixel of the requested size. The
/// thumbnail buffer is allocated whole, hence the bound on its size.
#[verifier::external_body]
fn resize_thumbnail(width: u32, height: u32, rgba: &[u8], new_width: u32, new_height: u32) -> (r: Vec<u8>)
    requires
        rgba@.len() == width * height * 4,
        new_width <= THUMBNAIL_MAX_EDGE,
        new_height <= THUMBNAIL_MAX_EDGE,
    ensures
        r@ == thumbnail_pixels(width, height, rgba@, new_width, new_height),
        r@.len() == new_width * new_height * 4,
{
    let source: image::ImageBuffer<image::Rgba<u8>, &[u8]> = match image::ImageBuffer::from_raw(width, height, rgba) {
        Some(source) => source,
        None => return Vec::new(),
    };
    image::imageops::thumbnail(&source, new_width, new_height).into_raw()
}

/// Calls `image::load_from_memory` and converts the image with
/// `into_rgba8`. The contract claims that the call succeeds exactly where
/// the decoded image (a function of the bytes alone) exists, and that a
/// success returns that image with four bytes per pixel.
#[verifier::external_body]
fn decode_rgba8(bytes: &[u8]) -> (r: Result<(u32, u32, Vec<u8>), String>)
    ensures
        r is Ok <==> decoded_rgba8(bytes@) is Some,
        r matches Ok((w, h, px)) ==> decoded_rgba8(bytes@) == Some((w, h, px@)) && px@.len() == w * h * 4,
{
    match image::load_from_memory(bytes) {
        Ok(decoded) => {
            let rgba = decoded.into_rgba8();
            Ok((rgba.width(), rgba.height(), rgba.into_raw()))
        },
        Err(err) => Err(err.to_string()),
    }
}

/// Encodes an image for storage in `dir` under `hash`: checks its size,
/// encodes the original as a lossless PNG (fast compression) and its
/// thumbnail (see [`thumb_dims`]) as a PNG. Fails with the size check's
/// error when that fails, and with an I/O error of kind `Other` when the
/// image has a zero edge, which the PNG encoder refuses.
pub fn prepare_save(dir: &str, image: &ImageData, hash: &str) -> (r: Result<EncodedImage, AppError>)
    ensures
        r is Ok <==> dims_ok(image.width, image.height, image.bytes@.len()) && image.width > 0
            && image.height > 0,
        match r {
            Ok(e) => {
                let w = image.width as u32;
                let h = image.height as u32;
                let (tw, th) = thumb_dims(w, h);
                &&& e.stored.hash@ == hash@
                &&& exists|sep: char| #![trigger image_paths(dir@, hash@, sep)]
                    (e.stored.image_path@, e.stored.thumbnail_path@) == image_paths(dir@, hash@, sep)
                &&& e.stored.width == w
                &&& e.stored.height == h
                &&& e.original_png@ == png_fast(w, h, image.bytes@)
                &&& e.thumbnail_png@ == png_default(tw, th, thumbnail_pixels(w, h, image.bytes@, tw, th))
            },
            Err(e) => if dims_ok(image.width, image.height, image.bytes@.len()) {
                e matches AppError::Io(k, _) && k == IoKind::Other
            } else {
                e matches AppError::Io(k, m) && (k, m@) == dimension_error(image.width, image.height)
            },
        },
{
    let (width, height) = dimensions(image)?;
    let (image_path, thumbnail_path) = paths_for(dir, hash);
    let original_png = match encode_png_fast(width, height, image.bytes.as_slice()) {
        Ok(png) => png,
        Err(message) => return Err(AppError::Io(IoKind::Other, message)),
    };
    let (thumb_width, thumb_height) = thumbnail_size(width, height);
    proof {
        law_thumbnail_only_shrinks(width, height);
    }
    let pixels = resize_thumbnail(width, height, image.bytes.as_slice(), thumb_width, thumb_height);
    let thumbnail_png = match encode_png_default(thumb_width, thumb_height, pixels.as_slice()) {
        Ok(png) => png,
        Err(message) => return Err(AppError::Io(IoKind::Other, message)),
    };
    Ok(EncodedImage {
        stored: StoredImage { hash: hash.to_owned(), image_path, thumbnail_path, width, height },
        original_png,
        thumbnail_png,
    })
}

/// Decodes an image file's contents to RGBA8 pixels (for writing an image
/// entry back to the clipboard). Succeeds exactly when the bytes decode
/// (see [`decoded_rgba8`]); fails with an image error otherwise.
pub fn load_rgba(bytes: &[u8]) -> (r: Result<ImageData, AppError>)
    ensures
        r is Ok <==> decoded_rgba8(bytes@) is Some,
        match r {
            Ok(img) => {
                &&& decoded_rgba8(bytes@) == Some((img.width as u32, img.height as u32, img.bytes@))
                &&& img.width <= u32::MAX
                &&& img.height <= u32::MAX
                &&& img.bytes@.len() == img.width * img.height * 4
            },
            Err(e) => e is ImageFile,
        },
{
    match decode_rgba8(bytes) {
        Ok((w, h, px)) => Ok(ImageData { width: w as usize, height: h as usize, bytes: px }),
        Err(message) => Err(AppError::ImageFile(message)),
    }
}


/// A large image's thumbnail edge is the image's edge scaled by
/// `200 / longest` and rounded to the nearest whole pixel (a half rounding
/// up), but never below one pixel: `2 · tw · longest` lies within `longest`
/// of `400 · width`, and likewise for the height.
pub proof fn law_thumbnail_keeps_the_ratio(width: u32, height: u32)
    requires
        (if width >= height { width } else { height }) > THUMBNAIL_MAX_EDGE,
    ensures
        ({
            let (tw, th) = thumb_dims(width, height);
            let l = (if width >= height { width } else { height }) as int;
            &&& tw >= 1 && th >= 1
            &&& 400 * width >= l ==> 2 * tw * l - l <= 400 * width < 2 * tw * l + l
            &&& 400 * width < l ==> tw == 1
            &&& 400 * height >= l ==> 2 * th * l - l <= 400 * height < 2 * th * l + l
            &&& 400 * height < l ==> th == 1
        }),
{
    let l = if width >= height { width } else { height };
    lemma_scaled_edge_rounds(width, l);
    lemma_scaled_edge_rounds(height, l);
}

proof fn lemma_scaled_edge_rounds(edge: u32, longest: u32)
    requires
        edge <= longest,
        longest > THUMBNAIL_MAX_EDGE,
    ensures
        scaled_edge(edge, longest) >= 1,
        400 * edge >= longest ==> 2 * scaled_edge(edge, longest) * longest - longest <= 400 * edge < 2 * scaled_edge(edge, longest) * longest + longest,
        400 * edge < longest ==> scaled_edge(edge, longest) == 1,
{
    let e = edge as int;
    let l = longest as int;
    let q = (e * 400 + l) / (2 * l);
    assert(q * (2 * l) <= e * 400 + l < (q + 1) * (2 * l)) by (nonlinear_arith)
        requires
            q == (e * 400 + l) / (2 * l),
            l > 0,
            e >= 0,
    ;
    assert(q <= 200) by (nonlinear_arith)
        requires
            q == (e * 400 + l) / (2 * l),
            e <= l,
            l > 200,
    ;
    if 400 * e >= l {
        assert(q >= 1) by (nonlinear_arith)
            requires
                q * (2 * l) <= e * 400 + l < (q + 1) * (2 * l),
                400 * e >= l,
                l > 0,
        ;
        assert(scaled_edge(edge, longest) == q);
        assert(2 * q * l - l <= 400 * e < 2 * q * l + l) by (nonlinear_arith)
            requires
                q * (2 * l) <= e * 400 + l < (q + 1) * (2 * l),
        ;
    } else {
        assert(q == 0) by (nonlinear_arith)
            requires
                q * (2 * l) <= e * 400 + l < (q + 1) * (2 * l),
                400 * e < l,
                l > 0,
                q >= 0,
        ;
    }
}

/// An image's two paths are the directory, then at most one separator
/// (none after an empty directory), then the hash followed by `.png` for
/// the original and by `.thumb.png` for the thumbnail.
pub proof fn law_image_paths_name_the_hash(dir: Seq<char>, hash: Seq<char>, sep: char)
    ensures
        exists|mid: Seq<char>| #![trigger dir + mid]
            mid.len() <= 1 && (dir.len() == 0 ==> mid.len() == 0) && (mid.len() == 1 ==> mid[0] == sep)
            && image_paths(dir, hash, sep).0 == dir + mid + (hash + ".png"@)
            && image_paths(dir, hash, sep).1 == dir + mid + (hash + ".thumb.png"@),
{
    let mid: Seq<char> = if dir.len() == 0 || dir.last() == '/' || dir.last() == sep { seq![] } else { seq![sep] };
    assert(dir + mid == dir + mid);
    if dir.len() == 0 {
        assert(dir + mid + (hash + ".png"@) =~= hash + ".png"@);
        assert(dir + mid + (hash + ".thumb.png"@) =~= hash + ".thumb.png"@);
    } else if dir.last() == '/' || dir.last() == sep {
        assert(dir + mid =~= dir);
    }
}

/// The size check accepts exactly the images whose edges fit in `u32` and
/// whose pixels take four bytes each.
pub proof fn law_size_check_wants_four_bytes_per_pixel(width: usize, height: usize, len: nat)
    ensures
        dims_ok(width, height, len) <==> (width <= u32::MAX && height <= u32::MAX && len == 4 * width * height),
{
    assert(width * height * 4 == 4 * width * height) by (nonlinear_arith);
}

/// `m` is the message that an image's hash digests: the width and then the
/// height as four little-endian bytes each, followed by every pixel byte.
pub open spec fn hash_message(m: Seq<u8>, width: u32, height: u32, rgba: Seq<u8>) -> bool {
    &&& m.len() == rgba.len() + 8
    &&& m[0] + 256 * m[1] + 65536 * m[2] + 16777216 * m[3] == width
    &&& m[4] + 256 * m[5] + 65536 * m[6] + 16777216 * m[7] == height
    &&& forall|i: int| 0 <= i < rgba.len() ==> m[8 + i] == #[trigger] rgba[i]
}

proof fn lemma_u32_le_value(x: u32)
    ensures
        u32_le(x).len() == 4,
        u32_le(x)[0] + 256 * u32_le(x)[1] + 65536 * u32_le(x)[2] + 16777216 * u32_le(x)[3] == x,
{
    let b0 = x % 256;
    let b1 = (x / 256) % 256;
    let b2 = (x / 65536) % 256;
    let b3 = x / 16777216;
    assert(x / 16777216 < 256) by (bit_vector);
    assert(x % 256 + 256 * ((x / 256) % 256) + 65536 * ((x / 65536) % 256) + 16777216 * (x / 16777216) == x) by (bit_vector);
    assert(u32_le(x)[0] == b0);
    assert(u32_le(x)[1] == b1);
    assert(u32_le(x)[2] == b2);
    assert(u32_le(x)[3] == b3);
}

/// The image hash covers the width, the height and every pixel byte: it is
/// the BLAKE3 digest of the image's [`hash_message`], and that message
/// determines the image, so two images that differ in an edge or in any
/// pixel byte have their hashes computed over different messages.
pub proof fn law_image_hash_covers_every_byte(width: u32, height: u32, rgba: Seq<u8>)
    ensures
        exists|m: Seq<u8>| #![trigger blake3_hex(m)] image_hash(width, height, rgba) == blake3_hex(m) && hash_message(m, width, height, rgba),
        forall|m: Seq<u8>, w2: u32, h2: u32, rgba2: Seq<u8>| #![trigger hash_message(m, width, height, rgba), hash_message(m, w2, h2, rgba2)]
            hash_message(m, width, height, rgba) && hash_message(m, w2, h2, rgba2) ==> w2 == width && h2 == height && rgba2 == rgba,
{
    let m = u32_le(width) + u32_le(height) + rgba;
    lemma_u32_le_value(width);
    lemma_u32_le_value(height);
    assert(m[0] == u32_le(width)[0] && m[1] == u32_le(width)[1] && m[2] == u32_le(width)[2] && m[3] == u32_le(width)[3]);
    assert(m[4] == u32_le(height)[0] && m[5] == u32_le(height)[1] && m[6] == u32_le(height)[2] && m[7] == u32_le(height)[3]);
    assert forall|i: int| 0 <= i < rgba.len() implies m[8 + i] == #[trigger] rgba[i] by {}
    assert(hash_message(m, width, height, rgba));
    assert(image_hash(width, height, rgba) == blake3_hex(m));
    assert forall|m2: Seq<u8>, w2: u32, h2: u32, rgba2: Seq<u8>| hash_message(m2, width, height, rgba) && hash_message(m2, w2, h2, rgba2)
        implies w2 == width && h2 == height && rgba2 == rgba by {
        assert forall|i: int| 0 <= i < rgba.len() implies rgba2[i] == rgba[i] by {
            assert(m2[8 + i] == rgba2[i]);
        }
        assert(rgba2 =~= rgba);
    }
}

/// Thumbnails never enlarge: for an image with both edges non-zero, each
/// thumbnail edge is at least one pixel and at most the image's edge, and the
/// longest thumbnail edge is the image's longest edge capped at
/// [`THUMBNAIL_MAX_EDGE`].
pub proof fn law_thumbnail_only_shrinks(width: u32, height: u32)
    requires
        width > 0,
        height > 0,
    ensures
        ({
            let (tw, th) = thumb_dims(width, height);
            let longest = if width >= height { width } else { height };
            let thumb_longest = if tw >= th { tw } else { th };
            &&& 1 <= tw <= width
            &&& 1 <= th <= height
            &&& thumb_longest == if longest <= THUMBNAIL_MAX_EDGE { longest } else { THUMBNAIL_MAX_EDGE }
        }),
{
    let longest = if width >= height { width } else { height };
    if longest > THUMBNAIL_MAX_EDGE {
        lemma_scaled_edge(width, longest);
        lemma_scaled_edge(height, longest);
    }
}

proof fn lemma_scaled_edge(edge: u32, longest: u32)
    requires
        1 <= edge <= longest,
        longest > THUMBNAIL_MAX_EDGE,
    ensures
        1 <= scaled_edge(edge, longest) <= edge,
        scaled_edge(edge, longest) <= THUMBNAIL_MAX_EDGE,
        edge == longest ==> scaled_edge(edge, longest) == THUMBNAIL_MAX_EDGE,
{
    let e = edge as int;
    let l = longest as int;
    let q = (e * 400 + l) / (2 * l);
    assert(q <= e) by (nonlinear_arith)
        requires
            q == (e * 400 + l) / (2 * l),
            1 <= e <= l,
            l > 200,
    ;
    assert(q <= 200) by (nonlinear_arith)
        requires
            q == (e * 400 + l) / (2 * l),
            e <= l,
            l > 200,
    ;
    if e == l {
        assert(q == 200) by (nonlinear_arith)
            requires
                q == (l * 400 + l) / (2 * l),
                l > 200,
        ;
    }
}

} // verus!
