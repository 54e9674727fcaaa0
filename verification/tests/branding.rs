use hangar_application::branding::{
    sniff_content_type, validate_asset, BrandingAsset, BrandingDefaults, BrandingSettings, GetBrandingUseCase,
    SetBrandingFaviconUseCase, SetBrandingLogoUseCase, MAX_ASSET_BYTES,
};
use hangar_application::error::ApplicationError;

const PNG_MAGIC: [u8; 8] = [0x89, 0x50, 0x4E, 0x47, 0x0D, 0x0A, 0x1A, 0x0A];
const JPEG_MAGIC: [u8; 3] = [0xFF, 0xD8, 0xFF];
const ICO_MAGIC: [u8; 4] = [0x00, 0x00, 0x01, 0x00];

fn with_magic(magic: &[u8], rest: &[u8]) -> Vec<u8> {
    let mut bytes = magic.to_vec();
    bytes.extend_from_slice(rest);
    bytes
}

fn test_defaults() -> BrandingDefaults {
    BrandingDefaults {
        logo: BrandingAsset { bytes: b"default-logo".to_vec(), content_type: "image/default-logo".to_string() },
        favicon: BrandingAsset { bytes: b"default-favicon".to_vec(), content_type: "image/default-favicon".to_string() },
    }
}

#[test]
fn sniffing_recognises_png_jpeg_and_ico_only_where_allowed() {
    assert_eq!(sniff_content_type(&with_magic(&PNG_MAGIC, b"x"), false), Some("image/png"));
    assert_eq!(sniff_content_type(&with_magic(&JPEG_MAGIC, b"x"), false), Some("image/jpeg"));
    assert_eq!(sniff_content_type(&with_magic(&ICO_MAGIC, b"x"), false), None);
    assert_eq!(sniff_content_type(&with_magic(&ICO_MAGIC, b"x"), true), Some("image/x-icon"));
    assert_eq!(sniff_content_type(&PNG_MAGIC[..7], true), None);
    assert_eq!(sniff_content_type(b"not an image", true), None);
}

#[test]
fn a_jpeg_logo_is_accepted_and_sniffed_correctly() {
    let asset = SetBrandingLogoUseCase::new().execute(with_magic(&JPEG_MAGIC, b"fake-jpeg-data")).unwrap();
    assert_eq!(asset.content_type, "image/jpeg");
    assert_eq!(asset.bytes, with_magic(&JPEG_MAGIC, b"fake-jpeg-data"));
}

#[test]
fn an_ico_logo_is_rejected() {
    let err = SetBrandingLogoUseCase::new().execute(with_magic(&ICO_MAGIC, b"fake-ico-data")).unwrap_err();
    assert_eq!(err, ApplicationError::InvalidBrandingAsset("unsupported format (PNG ou JPEG uniquement)".to_string()));
}

#[test]
fn an_ico_favicon_is_accepted() {
    let asset = SetBrandingFaviconUseCase::new().execute(with_magic(&ICO_MAGIC, b"fake-ico-data")).unwrap();
    assert_eq!(asset.content_type, "image/x-icon");
}

#[test]
fn an_unrecognized_format_is_rejected() {
    let err = SetBrandingFaviconUseCase::new().execute(b"not an image".to_vec()).unwrap_err();
    assert_eq!(err, ApplicationError::InvalidBrandingAsset("unsupported format (PNG, JPEG ou ICO uniquement)".to_string()));
}

#[test]
fn an_oversized_logo_is_rejected() {
    let mut bytes = PNG_MAGIC.to_vec();
    bytes.resize(MAX_ASSET_BYTES + 1, 0);
    let err = SetBrandingLogoUseCase::new().execute(bytes).unwrap_err();
    assert_eq!(err, ApplicationError::InvalidBrandingAsset("file exceeds 2 MB".to_string()));
    let mut exact = PNG_MAGIC.to_vec();
    exact.resize(MAX_ASSET_BYTES, 0);
    assert!(SetBrandingLogoUseCase::new().execute(exact).is_ok());
}

#[test]
fn an_empty_upload_is_rejected() {
    let err = validate_asset(Vec::new(), true, "hint").unwrap_err();
    assert_eq!(err, ApplicationError::InvalidBrandingAsset("file is empty".to_string()));
}

#[test]
fn an_unconfigured_instance_serves_the_compiled_in_defaults() {
    let resolved = GetBrandingUseCase::new(test_defaults()).execute(BrandingSettings { logo: None, favicon: None });
    assert_eq!(resolved.logo.content_type, "image/default-logo");
    assert_eq!(resolved.favicon.content_type, "image/default-favicon");
}

#[test]
fn an_uploaded_logo_is_served_and_the_missing_favicon_falls_back() {
    let logo = SetBrandingLogoUseCase::new().execute(with_magic(&PNG_MAGIC, b"fake-png-data")).unwrap();
    let resolved = GetBrandingUseCase::new(test_defaults()).execute(BrandingSettings { logo: Some(logo), favicon: None });
    assert_eq!(resolved.logo.content_type, "image/png");
    assert_eq!(resolved.favicon.content_type, "image/default-favicon");
}
