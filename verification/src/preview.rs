//! Bounded previews of a file's content: a base64 thumbnail for images, the
//! first stretch of extracted or plain text for documents, nothing for
//! anything else.  The shell reads the file; what the preview says is decided
//! here.

use vstd::prelude::*;

use crate::classify::{ext_spec, ext_of_path, mime_for_ext};
use crate::text::{ascii_lowered, ascii_lower, str_eq};
use crate::trusted::{base64_standard, base64_encode};

verus! {

/// Largest image rendered as an inline preview, in bytes.
pub const PREVIEW_IMAGE_MAX_BYTES: u64 = 5 * 1024 * 1024;

/// How many characters of text a preview shows.
pub const PREVIEW_TEXT_CHARS: usize = 200;

/// A bounded preview: its kind tag, its content (a data URL or text), and an
/// error note when the content could not be produced.
#[derive(Debug)]
pub struct FilePreview {
    pub preview_type: String,
    pub content: String,
    pub error: Option<String>,
}

/// What kind of preview a file's extension calls for.
pub enum PreviewClass {
    /// A raster image: previewed as an inline thumbnail.
    Image,
    /// A PDF: previewed by its extracted text.
    Pdf,
    /// A plain text document: previewed by its first characters.
    PlainText,
    /// Anything else: no preview.
    Unsupported,
}

/// Is this lower-cased extension one of the raster image kinds?
pub open spec fn is_image_ext(e: Seq<char>) -> bool {
    e == "png"@ || e == "jpg"@ || e == "jpeg"@ || e == "gif"@ || e == "webp"@ || e == "bmp"@
}

/// Is this lower-cased extension one of the plain text kinds?
pub open spec fn is_text_ext(e: Seq<char>) -> bool {
    e == "txt"@ || e == "md"@ || e == "csv"@
}

/// Decide the preview kind for a path by its lower-cased extension.
pub fn preview_class_for(path: &str) -> (r: PreviewClass)
    ensures
        ({
            let e = ascii_lowered(ext_spec(path@));
            &&& (r is Image) == is_image_ext(e)
            &&& (r is Pdf) == (!is_image_ext(e) && e == "pdf"@)
            &&& (r is PlainText) == (!is_image_ext(e) && e != "pdf"@ && is_text_ext(e))
        }),
{
    let raw = ext_of_path(path);
    let e = ascii_lower(raw.as_str());
    let es = e.as_str();
    if str_eq(es, "png") || str_eq(es, "jpg") || str_eq(es, "jpeg") || str_eq(es, "gif") || str_eq(
        es,
        "webp",
    ) || str_eq(es, "bmp") {
        PreviewClass::Image
    } else if str_eq(es, "pdf") {
        PreviewClass::Pdf
    } else if str_eq(es, "txt") || str_eq(es, "md") || str_eq(es, "csv") {
        PreviewClass::PlainText
    } else {
        PreviewClass::Unsupported
    }
}

/// The image preview: an inline data URL, unless the image is over the
/// preview size cap, which is reported instead of rendered.
pub fn image_preview(bytes: &Vec<u8>, path: &str) -> (r: FilePreview)
    ensures
        r.preview_type@ == "image"@,
        bytes@.len() > PREVIEW_IMAGE_MAX_BYTES ==> (r.content@ == Seq::<char>::empty() && (
        r.error matches Some(m) && m@ == "File too large for preview"@)),
        bytes@.len() <= PREVIEW_IMAGE_MAX_BYTES ==> (r.error is None && r.content@ == "data:"@
            + mime_for_ext(ascii_lowered(ext_spec(path@))) + ";base64,"@ + base64_standard(
            bytes@,
        )),
{
    let mut t = String::new();
    t.append("image");
    if bytes.len() as u64 > PREVIEW_IMAGE_MAX_BYTES {
        let mut m = String::new();
        m.append("File too large for preview");
        return FilePreview { preview_type: t, content: String::new(), error: Some(m) };
    }
    let raw = ext_of_path(path);
    let e = ascii_lower(raw.as_str());
    let mime = if str_eq(e.as_str(), "png") {
        "image/png"
    } else if str_eq(e.as_str(), "jpg") || str_eq(e.as_str(), "jpeg") {
        "image/jpeg"
    } else if str_eq(e.as_str(), "gif") {
        "image/gif"
    } else if str_eq(e.as_str(), "webp") {
        "image/webp"
    } else if str_eq(e.as_str(), "bmp") {
        "image/bmp"
    } else {
        "image/png"
    };
    let b64 = base64_encode(bytes);
    let mut u = String::new();
    u.append("data:");
    u.append(mime);
    u.append(";base64,");
    u.append(b64.as_str());
    FilePreview { preview_type: t, content: u, error: None }
}

/// The first stretch of a text, as a text preview.
pub fn text_preview(text: &str) -> (r: FilePreview)
    ensures
        r.preview_type@ == "text"@,
        r.error is None,
        r.content@ == text@.take(
            if text@.len() <= PREVIEW_TEXT_CHARS {
                text@.len() as int
            } else {
                PREVIEW_TEXT_CHARS as int
            },
        ),
{
    let n = text.unicode_len();
    let k = if n <= PREVIEW_TEXT_CHARS {
        n
    } else {
        PREVIEW_TEXT_CHARS
    };
    let mut t = String::new();
    t.append("text");
    FilePreview { preview_type: t, content: text.substring_char(0, k).to_owned(), error: None }
}

/// The PDF preview: the first stretch of the document's extracted text, or
/// the extraction error's message.  As with [`crate::classify::pdf_text_excerpt`],
/// the extraction itself runs in the shell; this fixes the preview for every
/// outcome it hands back.
pub fn pdf_preview(extraction: Result<String, String>) -> (r: FilePreview)
    ensures
        r.preview_type@ == "text"@,
        extraction matches Err(em) ==> (r.content@ == Seq::<char>::empty() && (
        r.error matches Some(m) && m@ == "Failed to extract PDF text: "@ + em@)),
        extraction matches Ok(m0) ==> (r.error is None && {
            let cleaned = crate::text::excerpt_spec(m0@, 500);
            r.content@ == cleaned.take(
                if cleaned.len() <= PREVIEW_TEXT_CHARS {
                    cleaned.len() as int
                } else {
                    PREVIEW_TEXT_CHARS as int
                },
            )
        }),
{
    let mut t = String::new();
    t.append("text");
    match crate::classify::pdf_text_excerpt(extraction) {
        Ok(text) => {
            let p = text_preview(text.as_str());
            FilePreview { preview_type: t, content: p.content, error: None }
        },
        Err(e) => {
            let m = e.message();
            FilePreview { preview_type: t, content: String::new(), error: Some(m) }
        },
    }
}

/// The preview for a file no preview exists for.
pub fn empty_preview() -> (r: FilePreview)
    ensures
        r.preview_type@ == "none"@,
        r.content@ == Seq::<char>::empty(),
        r.error is None,
{
    let mut t = String::new();
    t.append("none");
    FilePreview { preview_type: t, content: String::new(), error: None }
}

} // verus!
