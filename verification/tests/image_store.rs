use zach_tools::error::{AppError, IoKind};
use zach_tools::image_store::{
    dimensions, hash_image, load_rgba, paths_for, paths_in, prepare_save, thumbnail_size, ImageData,
    THUMBNAIL_MAX_EDGE,
};

/// A deterministic RGBA gradient, so that pixels are not trivial.
fn sample_image(width: u32, height: u32) -> ImageData {
    let mut bytes = Vec::with_capacity((width * height * 4) as usize);
    for y in 0..height {
        for x in 0..width {
            bytes.extend_from_slice(&[(x % 256) as u8, (y % 256) as u8, 128, 255]);
        }
    }
    ImageData {
        width: width as usize,
        height: height as usize,
        bytes,
    }
}

fn png_dimensions(png: &[u8]) -> (u32, u32) {
    let decoded = load_rgba(png).expect("解码失败");
    (decoded.width as u32, decoded.height as u32)
}

#[test]
fn save_writes_original_and_thumbnail_and_shrinks_large_image() {
    let dir = "data/clipboard-images";
    let image = sample_image(800, 400);
    let hash = hash_image(800, 400, &image.bytes);

    let encoded = prepare_save(dir, &image, &hash).expect("落盘失败");
    let stored = &encoded.stored;
    assert_eq!(stored.hash, hash);
    assert_eq!((stored.width, stored.height), (800, 400));
    assert_eq!(paths_for(dir, &hash).0, stored.image_path);
    assert_eq!(paths_for(dir, &hash).1, stored.thumbnail_path);

    assert_eq!(png_dimensions(&encoded.original_png), (800, 400));
    let (tw, th) = png_dimensions(&encoded.thumbnail_png);
    assert_eq!(tw.max(th), THUMBNAIL_MAX_EDGE);
    assert_eq!((tw, th), (200, 100));
}

#[test]
fn save_does_not_upscale_small_thumbnail() {
    let image = sample_image(40, 30);
    let hash = hash_image(40, 30, &image.bytes);

    let encoded = prepare_save("dir", &image, &hash).expect("落盘失败");
    assert_eq!(png_dimensions(&encoded.thumbnail_png), (40, 30));
}

#[test]
fn load_rgba_roundtrips_with_same_hash() {
    let image = sample_image(64, 48);
    let hash = hash_image(64, 48, &image.bytes);
    let encoded = prepare_save("dir", &image, &hash).expect("落盘失败");

    let loaded = load_rgba(&encoded.original_png).expect("读取原图失败");
    assert_eq!((loaded.width, loaded.height), (64, 48));
    assert_eq!(
        hash_image(loaded.width as u32, loaded.height as u32, &loaded.bytes),
        hash
    );
}

#[test]
fn hash_distinguishes_dimensions_with_same_bytes() {
    let bytes = vec![0u8; 2 * 4 * 4];
    assert_ne!(hash_image(2, 4, &bytes), hash_image(4, 2, &bytes));
}

#[test]
fn save_rejects_mismatched_byte_length() {
    let image = ImageData {
        width: 4,
        height: 4,
        bytes: vec![0u8; 10],
    };
    assert!(prepare_save("dir", &image, "bad").is_err());
}

#[test]
fn thumbnail_size_keeps_ratio_and_min_edge() {
    assert_eq!(thumbnail_size(100, 50), (100, 50));
    assert_eq!(thumbnail_size(400, 200), (200, 100));
    assert_eq!(thumbnail_size(200, 1000), (40, 200));
    assert_eq!(thumbnail_size(4000, 1), (200, 1));
}

#[test]
fn thumbnail_size_rounds_halves_up_and_keeps_zero_edge_visible() {
    // 3 * 200 / 240 = 2.5
    assert_eq!(thumbnail_size(240, 3), (200, 3));
    assert_eq!(thumbnail_size(3, 240), (3, 200));
    assert_eq!(thumbnail_size(400, 1), (200, 1));
    assert_eq!(thumbnail_size(0, 300), (1, 200));
    assert_eq!(thumbnail_size(u32::MAX, u32::MAX), (200, 200));
}

#[test]
fn hash_image_is_blake3_of_le_dimensions_and_pixels() {
    let bytes = [1u8, 2, 3, 4];
    let mut hasher = blake3::Hasher::new();
    hasher.update(&1u32.to_le_bytes());
    hasher.update(&258u32.to_le_bytes());
    hasher.update(&bytes);
    let hash = hash_image(1, 258, &bytes);
    assert_eq!(hash, hasher.finalize().to_hex().to_string());
    assert_eq!(hash.len(), 64);
    assert!(hash.chars().all(|c| c.is_ascii_digit() || ('a'..='f').contains(&c)));
}

#[test]
fn paths_follow_the_layout() {
    assert_eq!(
        paths_for("data/images", "abc"),
        ("data/images/abc.png".to_string(), "data/images/abc.thumb.png".to_string())
    );
    assert_eq!(paths_for("data/", "abc").0, "data/abc.png");
    assert_eq!(paths_for("", "abc").1, "abc.thumb.png");
}

#[test]
fn paths_use_the_given_separator() {
    assert_eq!(
        paths_in("C:\\data\\images", "abc", '\\'),
        ("C:\\data\\images\\abc.png".to_string(), "C:\\data\\images\\abc.thumb.png".to_string())
    );
    // a trailing separator of either kind is kept as it is on Windows
    assert_eq!(paths_in("C:\\data\\", "abc", '\\').0, "C:\\data\\abc.png");
    assert_eq!(paths_in("C:/data/", "abc", '\\').0, "C:/data/abc.png");
    // on Unix a backslash is an ordinary character
    assert_eq!(paths_in("data\\", "abc", '/').0, "data\\/abc.png");
    // the platform's own separator is the one paths_for uses
    assert_eq!(
        paths_for("data", "abc"),
        paths_in("data", "abc", std::path::MAIN_SEPARATOR)
    );
    assert_eq!(
        std::path::Path::new("data").join("abc.png").to_string_lossy(),
        paths_for("data", "abc").0
    );
}

#[test]
fn dimensions_checks_byte_count() {
    let good = sample_image(3, 2);
    assert_eq!(dimensions(&good).expect("尺寸应有效"), (3, 2));
    let bad = ImageData { width: 3, height: 2, bytes: vec![0u8; 23] };
    assert_eq!(
        dimensions(&bad),
        Err(AppError::Io(IoKind::InvalidData, "图片像素字节数与宽高不匹配".to_string()))
    );
    let huge = ImageData { width: usize::MAX, height: 1, bytes: Vec::new() };
    assert_eq!(
        dimensions(&huge),
        Err(AppError::Io(IoKind::InvalidInput, "图片宽度超出范围".to_string()))
    );
    let tall = ImageData { width: 1, height: u32::MAX as usize + 1, bytes: Vec::new() };
    assert_eq!(
        dimensions(&tall),
        Err(AppError::Io(IoKind::InvalidInput, "图片高度超出范围".to_string()))
    );
    // the byte count overflows usize: still a mismatch, not an out-of-range edge
    let overflow = ImageData { width: u32::MAX as usize, height: u32::MAX as usize, bytes: Vec::new() };
    assert!(matches!(dimensions(&overflow), Err(AppError::Io(IoKind::InvalidData, _))));
}

#[test]
fn load_rgba_rejects_non_images() {
    assert!(matches!(load_rgba(b"not an image"), Err(AppError::ImageFile(_))));
}

#[test]
fn zero_sized_image_fails_to_encode() {
    let empty = ImageData { width: 0, height: 0, bytes: Vec::new() };
    assert!(matches!(prepare_save("dir", &empty, "h"), Err(AppError::Io(IoKind::Other, _))));
    let flat = ImageData { width: 5, height: 0, bytes: Vec::new() };
    assert!(matches!(prepare_save("dir", &flat, "h"), Err(AppError::Io(IoKind::Other, _))));
}

#[test]
fn one_pixel_image_encodes() {
    let image = sample_image(1, 1);
    let encoded = prepare_save("dir", &image, "h").expect("编码失败");
    assert_eq!(png_dimensions(&encoded.original_png), (1, 1));
    assert_eq!(png_dimensions(&encoded.thumbnail_png), (1, 1));
}
