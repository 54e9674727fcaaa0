//! Operator branding (logo and favicon): what an upload must look like to be accepted, and which
//! asset is served when the operator has not uploaded one.

use vstd::prelude::*;

use crate::error::ApplicationError;
use crate::text::seq_starts_with;

verus! {

/// Uploads larger than this are refused.
pub const MAX_ASSET_BYTES: usize = 2097152;

pub const PNG_TYPE: &'static str = "image/png";

pub const JPEG_TYPE: &'static str = "image/jpeg";

pub const ICO_TYPE: &'static str = "image/x-icon";

pub const LOGO_FORMAT_HINT: &'static str = "PNG ou JPEG uniquement";

pub const FAVICON_FORMAT_HINT: &'static str = "PNG, JPEG ou ICO uniquement";

/// An image and the content type it is served with.
#[derive(Debug, Clone, PartialEq, Eq)]
pub struct BrandingAsset {
    pub bytes: Vec<u8>,
    pub content_type: String,
}

impl BrandingAsset {
    /// A copy of this asset.
    pub fn duplicate(&self) -> (r: BrandingAsset)
        ensures
            r.bytes@ == self.bytes@,
            r.content_type@ == self.content_type@,
    {
        BrandingAsset { bytes: self.bytes.clone(), content_type: self.content_type.clone() }
    }
}

/// What an organization has uploaded; `None` where it uploaded nothing.
pub struct BrandingSettings {
    pub logo: Option<BrandingAsset>,
    pub favicon: Option<BrandingAsset>,
}

/// The compiled-in logo and favicon served when the operator has not uploaded their own.
pub struct BrandingDefaults {
    pub logo: BrandingAsset,
    pub favicon: BrandingAsset,
}

/// The branding actually served: never absent, the defaults have already been applied.
pub struct ResolvedBranding {
    pub logo: BrandingAsset,
    pub favicon: BrandingAsset,
}

pub open spec fn png_magic() -> Seq<u8> {
    seq![0x89u8, 0x50u8, 0x4Eu8, 0x47u8, 0x0Du8, 0x0Au8, 0x1Au8, 0x0Au8]
}

pub open spec fn jpeg_magic() -> Seq<u8> {
    seq![0xFFu8, 0xD8u8, 0xFFu8]
}

pub open spec fn ico_magic() -> Seq<u8> {
    seq![0x00u8, 0x00u8, 0x01u8, 0x00u8]
}

/// The format recognised from the leading bytes: PNG, then JPEG, then (where allowed) ICO.
pub open spec fn sniff_spec(bytes: Seq<u8>, allow_ico: bool) -> Option<Seq<char>> {
    if seq_starts_with(bytes, png_magic()) {
        Some(PNG_TYPE@)
    } else if seq_starts_with(bytes, jpeg_magic()) {
        Some(JPEG_TYPE@)
    } else if allow_ico && seq_starts_with(bytes, ico_magic()) {
        Some(ICO_TYPE@)
    } else {
        None
    }
}

fn starts_with_bytes(bytes: &[u8], magic: &[u8]) -> (r: bool)
    ensures
        r == seq_starts_with(bytes@, magic@),
{
    if bytes.len() < magic.len() {
        return false;
    }
    let mut i: usize = 0;
    while i < magic.len()
        invariant
            magic@.len() <= bytes@.len(),
            i <= magic@.len(),
            forall|j: int| 0 <= j < i ==> bytes@[j] == magic@[j],
        decreases magic@.len() - i,
    {
        if bytes[i] != magic[i] {
            assert(bytes@.subrange(0, magic@.len() as int)[i as int] != magic@[i as int]);
            return false;
        }
        i = i + 1;
    }
    assert(bytes@.subrange(0, magic@.len() as int) =~= magic@);
    true
}

/// The content type the bytes really are, read from their leading bytes rather than taken
/// from the client's declared type, which would otherwise be served back unchecked.
pub fn sniff_content_type(bytes: &[u8], allow_ico: bool) -> (r: Option<&'static str>)
    ensures
        match r {
            Some(t) => sniff_spec(bytes@, allow_ico) == Some(t@),
            None => sniff_spec(bytes@, allow_ico) is None,
        },
{
    let png: [u8; 8] = [0x89, 0x50, 0x4E, 0x47, 0x0D, 0x0A, 0x1A, 0x0A];
    let jpeg: [u8; 3] = [0xFF, 0xD8, 0xFF];
    let ico: [u8; 4] = [0x00, 0x00, 0x01, 0x00];
    assert(png@ =~= png_magic());
    assert(jpeg@ =~= jpeg_magic());
    assert(ico@ =~= ico_magic());
    if starts_with_bytes(bytes, png.as_slice()) {
        return Some(PNG_TYPE);
    }
    if starts_with_bytes(bytes, jpeg.as_slice()) {
        return Some(JPEG_TYPE);
    }
    if allow_ico && starts_with_bytes(bytes, ico.as_slice()) {
        return Some(ICO_TYPE);
    }
    None
}

pub open spec fn empty_message() -> Seq<char> {
    "file is empty"@
}

pub open spec fn too_large_message() -> Seq<char> {
    "file exceeds 2 MB"@
}

pub open spec fn unsupported_message(format_hint: Seq<char>) -> Seq<char> {
    "unsupported format ("@ + format_hint + ")"@
}

/// The outcome of validating an upload: refused when empty, when over [`MAX_ASSET_BYTES`] or
/// when its format is not recognised; otherwise the bytes with their sniffed content type.
pub open spec fn validate_asset_ok(bytes: Seq<u8>, allow_ico: bool, asset: BrandingAsset) -> bool {
    &&& bytes.len() > 0
    &&& bytes.len() <= MAX_ASSET_BYTES
    &&& sniff_spec(bytes, allow_ico) == Some(asset.content_type@)
    &&& asset.bytes@ == bytes
}

/// What checking an upload gives: empty, too large, unsupported (naming the accepted
/// formats), or the asset.
pub open spec fn asset_outcome(
    bytes: Seq<u8>,
    allow_ico: bool,
    format_hint: Seq<char>,
    r: Result<BrandingAsset, ApplicationError>,
) -> bool {
    &&& bytes.len() == 0 ==> (r matches Err(ApplicationError::InvalidBrandingAsset(m)) && m@ == empty_message())
    &&& 0 < bytes.len() > MAX_ASSET_BYTES ==> (r matches Err(ApplicationError::InvalidBrandingAsset(m)) && m@ == too_large_message())
    &&& 0 < bytes.len() <= MAX_ASSET_BYTES && sniff_spec(bytes, allow_ico) is None ==> (r matches Err(
        ApplicationError::InvalidBrandingAsset(m),
    ) && m@ == unsupported_message(format_hint))
    &&& 0 < bytes.len() <= MAX_ASSET_BYTES && sniff_spec(bytes, allow_ico) is Some ==> (r matches Ok(asset)
        && validate_asset_ok(bytes, allow_ico, asset))
}

pub fn validate_asset(bytes: Vec<u8>, allow_ico: bool, format_hint: &str) -> (r: Result<BrandingAsset, ApplicationError>)
    ensures
        asset_outcome(bytes@, allow_ico, format_hint@, r),
        bytes@.len() == 0 ==> (r matches Err(ApplicationError::InvalidBrandingAsset(m)) && m@ == empty_message()),
        0 < bytes@.len() > MAX_ASSET_BYTES ==> (r matches Err(ApplicationError::InvalidBrandingAsset(m)) && m@ == too_large_message()),
        0 < bytes@.len() <= MAX_ASSET_BYTES && sniff_spec(bytes@, allow_ico) is None ==> (r matches Err(
            ApplicationError::InvalidBrandingAsset(m),
        ) && m@ == unsupported_message(format_hint@)),
        0 < bytes@.len() <= MAX_ASSET_BYTES && sniff_spec(bytes@, allow_ico) is Some ==> (r matches Ok(asset)
            && validate_asset_ok(bytes@, allow_ico, asset)),
{
    if bytes.len() == 0 {
        return Err(ApplicationError::InvalidBrandingAsset(String::from_str("file is empty")));
    }
    if bytes.len() > MAX_ASSET_BYTES {
        return Err(ApplicationError::InvalidBrandingAsset(String::from_str("file exceeds 2 MB")));
    }
    match sniff_content_type(bytes.as_slice(), allow_ico) {
        Some(content_type) => Ok(BrandingAsset { bytes, content_type: String::from_str(content_type) }),
        None => {
            let mut message = String::from_str("unsupported format (");
            message.append(format_hint);
            message.append(")");
            Err(ApplicationError::InvalidBrandingAsset(message))
        },
    }
}

/// Serves the operator's own uploads, falling back to the compiled-in default for whichever
/// asset was never uploaded (or was cleared).
pub struct GetBrandingUseCase {
    pub defaults: BrandingDefaults,
}

impl GetBrandingUseCase {
    pub fn new(defaults: BrandingDefaults) -> (r: Self)
        ensures
            r.defaults == defaults,
    {
        GetBrandingUseCase { defaults }
    }

    /// Always resolves to something: the stored upload, or the default.
    pub fn execute(&self, settings: BrandingSettings) -> (r: ResolvedBranding)
        ensures
            r.logo@ == (match settings.logo {
                Some(a) => a@,
                None => self.defaults.logo@,
            }),
            r.favicon@ == (match settings.favicon {
                Some(a) => a@,
                None => self.defaults.favicon@,
            }),
    {
        let logo = match settings.logo {
            Some(asset) => asset,
            None => self.defaults.logo.duplicate(),
        };
        let favicon = match settings.favicon {
            Some(asset) => asset,
            None => self.defaults.favicon.duplicate(),
        };
        ResolvedBranding { logo, favicon }
    }
}

impl View for BrandingAsset {
    type V = (Seq<u8>, Seq<char>);

    open spec fn view(&self) -> (Seq<u8>, Seq<char>) {
        (self.bytes@, self.content_type@)
    }
}

/// Accepts a logo upload: PNG or JPEG only. Returns the asset to store.
pub struct SetBrandingLogoUseCase {}

impl SetBrandingLogoUseCase {
    pub fn new() -> Self {
        SetBrandingLogoUseCase {  }
    }

    pub fn execute(&self, bytes: Vec<u8>) -> (r: Result<BrandingAsset, ApplicationError>)
        ensures
            asset_outcome(bytes@, false, LOGO_FORMAT_HINT@, r),
    {
        validate_asset(bytes, false, LOGO_FORMAT_HINT)
    }
}

/// Accepts a favicon upload: PNG, JPEG or ICO. Returns the asset to store.
pub struct SetBrandingFaviconUseCase {}

impl SetBrandingFaviconUseCase {
    pub fn new() -> Self {
        SetBrandingFaviconUseCase {  }
    }

    pub fn execute(&self, bytes: Vec<u8>) -> (r: Result<BrandingAsset, ApplicationError>)
        ensures
            asset_outcome(bytes@, true, FAVICON_FORMAT_HINT@, r),
    {
        validate_asset(bytes, true, FAVICON_FORMAT_HINT)
    }
}

/// A favicon accepts everything a logo does, and ICO besides.
pub proof fn lemma_logo_formats_are_favicon_formats(bytes: Seq<u8>)
    ensures
        sniff_spec(bytes, false) is Some ==> sniff_spec(bytes, true) == sniff_spec(bytes, false),
        sniff_spec(bytes, false) is None && sniff_spec(bytes, true) is Some ==> sniff_spec(bytes, true) == Some(ICO_TYPE@),
{
}

} // verus!
