//! Output encoding formats.
//!
//! The library only chooses and carries a format; encoding an image into one
//! of them is the caller's business.

use vstd::prelude::*;

verus! {

/// Encodings an output image can be saved in.
#[derive(Debug, Clone, Copy, PartialEq, Eq, Structural)]
pub enum OutputFormat {
    Png,
    Jpeg,
    Tiff,
    Tga,
    Hdr,
    Bmp,
    Webp,
    Ico,
    Pnm,
}

/// The format a user-supplied name denotes, if any.
pub open spec fn spec_parse_format(s: Seq<char>) -> Option<OutputFormat> {
    if s == "png"@ {
        Some(OutputFormat::Png)
    } else if s == "jpg"@ {
        Some(OutputFormat::Jpeg)
    } else if s == "jpeg"@ {
        Some(OutputFormat::Jpeg)
    } else if s == "tif"@ {
        Some(OutputFormat::Tiff)
    } else if s == "tga"@ {
        Some(OutputFormat::Tga)
    } else if s == "hdr"@ {
        Some(OutputFormat::Hdr)
    } else if s == "bmp"@ {
        Some(OutputFormat::Bmp)
    } else if s == "webp"@ {
        Some(OutputFormat::Webp)
    } else if s == "ico"@ {
        Some(OutputFormat::Ico)
    } else if s == "pnm"@ {
        Some(OutputFormat::Pnm)
    } else {
        None
    }
}

/// Parses a format name; unknown names are rejected with a message naming
/// them.
pub fn parse_image_format(input: &str) -> (r: Result<OutputFormat, String>)
    ensures
        match r {
            Ok(f) => spec_parse_format(input@) == Some(f),
            Err(m) => spec_parse_format(input@) is None && m@ == "unsupported format '"@ + input@
                + "'"@,
        },
{
    if crate::paths::str_eq(input, "png") {
        Ok(OutputFormat::Png)
    } else if crate::paths::str_eq(input, "jpg") {
        Ok(OutputFormat::Jpeg)
    } else if crate::paths::str_eq(input, "jpeg") {
        Ok(OutputFormat::Jpeg)
    } else if crate::paths::str_eq(input, "tif") {
        Ok(OutputFormat::Tiff)
    } else if crate::paths::str_eq(input, "tga") {
        Ok(OutputFormat::Tga)
    } else if crate::paths::str_eq(input, "hdr") {
        Ok(OutputFormat::Hdr)
    } else if crate::paths::str_eq(input, "bmp") {
        Ok(OutputFormat::Bmp)
    } else if crate::paths::str_eq(input, "webp") {
        Ok(OutputFormat::Webp)
    } else if crate::paths::str_eq(input, "ico") {
        Ok(OutputFormat::Ico)
    } else if crate::paths::str_eq(input, "pnm") {
        Ok(OutputFormat::Pnm)
    } else {
        let mut msg = "unsupported format '".to_owned();
        msg.append(input);
        msg.append("'");
        Err(msg)
    }
}

} // verus!
