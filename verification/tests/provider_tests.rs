use repost_detector::config::CacheConfig;
use repost_detector::engine::{Candidate, Engine};
use repost_detector::provider::fingerprint_image;

fn s(x: &str) -> String {
    x.to_string()
}

/// A small PNG with visible structure, so its perceptual hash is not the
/// all-zero hash of a uniform image.
fn png_bytes(seed: u8) -> Vec<u8> {
    let img = image::RgbaImage::from_fn(32, 32, |x, y| {
        let v = ((x as u8).wrapping_mul(13)).wrapping_add((y as u8).wrapping_mul(7)).wrapping_add(seed);
        image::Rgba([v, v.wrapping_mul(3), 255 - v, 255])
    });
    let dynimg = image::DynamicImage::ImageRgba8(img);
    let mut buf: Vec<u8> = Vec::new();
    dynimg
        .write_to(&mut buf, image::ImageOutputFormat::Png)
        .expect("png encoding");
    buf
}

#[test]
fn image_bytes_fingerprint_deterministically() {
    let bytes = png_bytes(0);
    let fp1 = fingerprint_image(&bytes).expect("valid image");
    let fp2 = fingerprint_image(&bytes).expect("valid image");
    assert!(fp1.is_same(&fp2));
    assert_eq!(fp1.distance(&fp2), 0);
}

#[test]
fn undecodable_bytes_yield_nothing() {
    let junk: Vec<u8> = b"this is not an image at all".to_vec();
    assert!(fingerprint_image(&junk).is_none());
    let mut e = Engine::new(CacheConfig::new(4, false, false).unwrap());
    assert!(!e.allow_image(&junk));
}

#[test]
fn allowed_image_bytes_never_reported() {
    let bytes = png_bytes(0);
    let mut e = Engine::new(CacheConfig::new(4, false, false).unwrap());
    assert!(e.allow_image(&bytes));
    let fp = fingerprint_image(&bytes).expect("valid image");
    for i in 0..3 {
        let ns = e.process_candidates(
            &vec![Candidate::Attachment { fp }],
            &s("alice"),
            &s("m"),
            i,
        );
        assert!(ns.is_empty());
    }
}

#[test]
fn reposted_image_bytes_reported() {
    let bytes = png_bytes(0);
    let mut e = Engine::new(CacheConfig::new(4, false, false).unwrap());
    let fp = fingerprint_image(&bytes).expect("valid image");
    let ns = e.process_candidates(&vec![Candidate::Attachment { fp }], &s("alice"), &s("m1"), 0);
    assert!(ns.is_empty());
    let fp_again = fingerprint_image(&bytes).expect("valid image");
    let ns = e.process_candidates(
        &vec![Candidate::Attachment { fp: fp_again }],
        &s("bob"),
        &s("m2"),
        86_400,
    );
    assert_eq!(ns.len(), 1);
    assert_eq!(ns[0].prior_submitter, "alice");
    assert_eq!(ns[0].days_ago, 1);
}

#[test]
fn zero_dimension_image_yields_nothing() {
    // A valid 16-byte farbfeld header declaring a 0x0 image decodes, but
    // cannot be fingerprinted; it must be dropped, not crash the engine.
    let mut zero_by_zero: Vec<u8> = b"farbfeld".to_vec();
    zero_by_zero.extend_from_slice(&[0, 0, 0, 0, 0, 0, 0, 0]);
    assert!(fingerprint_image(&zero_by_zero).is_none());

    let mut zero_width: Vec<u8> = b"farbfeld".to_vec();
    zero_width.extend_from_slice(&[0, 0, 0, 0, 0, 0, 0, 1]);
    assert!(fingerprint_image(&zero_width).is_none());

    let mut e = Engine::new(CacheConfig::new(4, false, false).unwrap());
    assert!(!e.allow_image(&zero_by_zero));
    let ns = e.process_candidates(
        &vec![Candidate::Embed { url: s("https://z.test/z"), media: fingerprint_image(&zero_by_zero) }],
        &s("alice"),
        &s("m"),
        0,
    );
    assert!(ns.is_empty());
}
