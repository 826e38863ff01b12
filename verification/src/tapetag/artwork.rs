//! Cover artwork checks before embedding: size limit and image format.
use vstd::prelude::*;
use crate::text::owned;

verus! {

/// Largest cover file that is embedded (10 MB).
pub const MAX_COVER_SIZE: u64 = 10 * 1024 * 1024;

/// Image formats a cover can be embedded as.
#[derive(Debug, Clone, Copy, PartialEq, Eq, Structural)]
pub enum ImageMime {
    Jpeg,
    Png,
}

/// JPEG (`FF D8`) or PNG (`89 50 4E 47`) by the leading bytes; files
/// under four bytes are refused.
pub open spec fn spec_detect_image_mime(data: Seq<u8>) -> Option<ImageMime> {
    if data.len() < 4 {
        None
    } else if data[0] == 0xFF && data[1] == 0xD8 {
        Some(ImageMime::Jpeg)
    } else if data[0] == 0x89 && data[1] == 0x50 && data[2] == 0x4E && data[3] == 0x47 {
        Some(ImageMime::Png)
    } else {
        None
    }
}

/// Detect JPEG vs PNG from magic bytes.
pub fn detect_image_mime(data: &[u8]) -> (r: Result<ImageMime, String>)
    ensures
        match r {
            Ok(m) => spec_detect_image_mime(data@) == Some(m),
            Err(e) => spec_detect_image_mime(data@) is None
                && e@ == (if data@.len() < 4 { "Image file too small to detect format"@ } else {
                    "Unsupported image format (not JPEG or PNG)"@
                }),
        },
{
    if data.len() < 4 {
        return Err(owned("Image file too small to detect format"));
    }
    if data[0] == 0xFF && data[1] == 0xD8 {
        Ok(ImageMime::Jpeg)
    } else if data[0] == 0x89 && data[1] == 0x50 && data[2] == 0x4E && data[3] == 0x47 {
        Ok(ImageMime::Png)
    } else {
        Err(owned("Unsupported image format (not JPEG or PNG)"))
    }
}

} // verus!
