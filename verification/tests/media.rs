use tsukkomi::media::{declared_or_sniffed_type, ImageMediaType};

#[test]
fn mime_types_map_to_media_types() {
    assert!(ImageMediaType::from_mime_type("image/jpeg") == Some(ImageMediaType::JPEG));
    assert!(ImageMediaType::from_mime_type("image/png") == Some(ImageMediaType::PNG));
    assert!(ImageMediaType::from_mime_type("image/gif") == Some(ImageMediaType::GIF));
    assert!(ImageMediaType::from_mime_type("image/webp") == Some(ImageMediaType::WEBP));
    assert!(ImageMediaType::from_mime_type("image/heic") == Some(ImageMediaType::HEIC));
    assert!(ImageMediaType::from_mime_type("image/heif") == Some(ImageMediaType::HEIF));
    assert!(ImageMediaType::from_mime_type("image/svg+xml") == Some(ImageMediaType::SVG));
    assert!(ImageMediaType::from_mime_type("image/jpg").is_none());
    assert!(ImageMediaType::from_mime_type("").is_none());
}

#[test]
fn declared_type_wins_over_sniffed_type() {
    let jpeg = vec![0xFF, 0xD8, 0xFF, 0xAA];
    assert_eq!(
        declared_or_sniffed_type(Some("image/webp".into()), &jpeg).as_deref(),
        Some("image/webp")
    );
    assert_eq!(declared_or_sniffed_type(None, &jpeg).as_deref(), Some("image/jpeg"));
    assert_eq!(declared_or_sniffed_type(None, &[0u8, 1, 2]), None);
}
