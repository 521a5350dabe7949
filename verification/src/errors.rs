//! The closed error taxonomies of the three domains: relocation, persistence
//! and classification.  Each error renders to the exact message the callers
//! and the user-facing shell show.

use vstd::prelude::*;

use crate::text::{ascii_lowered, ascii_lower, contains_sub, contains, dec_str, u64_to_string};

verus! {

/// Errors of the file-relocation domain.
#[derive(Debug)]
pub enum CommandError {
    FileNotFound(String),
    DuplicateExists(String),
    PermissionDenied(String),
    FileInUse(String),
    PathTraversal,
    InvalidPath(String),
    IoError(String),
}

impl CommandError {
    /// The message shown for this error.
    pub open spec fn rendered(&self) -> Seq<char> {
        match self {
            CommandError::FileNotFound(p) => "File not found: "@ + p@,
            CommandError::DuplicateExists(p) => "File already exists: "@ + p@,
            CommandError::PermissionDenied(m) => "Permission denied: "@ + m@,
            CommandError::FileInUse(m) => "File is in use: "@ + m@,
            CommandError::PathTraversal => "Path traversal not allowed"@,
            CommandError::InvalidPath(m) => "Invalid path: "@ + m@,
            CommandError::IoError(m) => "IO error: "@ + m@,
        }
    }

    /// Render the error message.
    pub fn message(&self) -> (m: String)
        ensures
            m@ == self.rendered(),
    {
        match self {
            CommandError::FileNotFound(p) => {
                let mut s = String::new();
                s.append("File not found: ");
                s.append(p.as_str());
                s
            },
            CommandError::DuplicateExists(p) => {
                let mut s = String::new();
                s.append("File already exists: ");
                s.append(p.as_str());
                s
            },
            CommandError::PermissionDenied(m) => {
                let mut s = String::new();
                s.append("Permission denied: ");
                s.append(m.as_str());
                s
            },
            CommandError::FileInUse(m) => {
                let mut s = String::new();
                s.append("File is in use: ");
                s.append(m.as_str());
                s
            },
            CommandError::PathTraversal => {
                let mut s = String::new();
                s.append("Path traversal not allowed");
                s
            },
            CommandError::InvalidPath(m) => {
                let mut s = String::new();
                s.append("Invalid path: ");
                s.append(m.as_str());
                s
            },
            CommandError::IoError(m) => {
                let mut s = String::new();
                s.append("IO error: ");
                s.append(m.as_str());
                s
            },
        }
    }

    /// Classify an operating-system I/O failure by its message text, keeping
    /// the message as the payload.
    pub fn from_io_message(msg: String) -> (r: CommandError)
        ensures
            ({
                let low = ascii_lowered(msg@);
                if contains_sub(low, "permission denied"@) || contains_sub(low, "access denied"@) {
                    r == CommandError::PermissionDenied(msg)
                } else if contains_sub(low, "used by another process"@) || contains_sub(
                    low,
                    "being used"@,
                ) {
                    r == CommandError::FileInUse(msg)
                } else if contains_sub(low, "not found"@) || contains_sub(low, "cannot find"@) {
                    r == CommandError::FileNotFound(msg)
                } else {
                    r == CommandError::IoError(msg)
                }
            }),
    {
        let low = ascii_lower(msg.as_str());
        if contains(low.as_str(), "permission denied") || contains(low.as_str(), "access denied") {
            CommandError::PermissionDenied(msg)
        } else if contains(low.as_str(), "used by another process") || contains(
            low.as_str(),
            "being used",
        ) {
            CommandError::FileInUse(msg)
        } else if contains(low.as_str(), "not found") || contains(low.as_str(), "cannot find") {
            CommandError::FileNotFound(msg)
        } else {
            CommandError::IoError(msg)
        }
    }
}

/// Errors of the persistence domain.
#[derive(Debug)]
pub enum DbError {
    InitFailed(String),
    QueryFailed(String),
    InsertFailed(String),
    UpdateFailed(String),
}

impl DbError {
    /// The message shown for this error.
    pub open spec fn rendered(&self) -> Seq<char> {
        match self {
            DbError::InitFailed(m) => "Database initialization failed: "@ + m@,
            DbError::QueryFailed(m) => "Database query failed: "@ + m@,
            DbError::InsertFailed(m) => "Database insert failed: "@ + m@,
            DbError::UpdateFailed(m) => "Database update failed: "@ + m@,
        }
    }

    /// Render the error message.
    pub fn message(&self) -> (m: String)
        ensures
            m@ == self.rendered(),
    {
        match self {
            DbError::InitFailed(t) => {
                let mut s = String::new();
                s.append("Database initialization failed: ");
                s.append(t.as_str());
                s
            },
            DbError::QueryFailed(t) => {
                let mut s = String::new();
                s.append("Database query failed: ");
                s.append(t.as_str());
                s
            },
            DbError::InsertFailed(t) => {
                let mut s = String::new();
                s.append("Database insert failed: ");
                s.append(t.as_str());
                s
            },
            DbError::UpdateFailed(t) => {
                let mut s = String::new();
                s.append("Database update failed: ");
                s.append(t.as_str());
                s
            },
        }
    }
}

/// Errors of the classification domain.
#[derive(Debug)]
pub enum ClassifierError {
    /// No credential is available for the external classifier.
    MissingApiKey,
    /// Building the transport or carrying out the call failed.
    HttpClient(String),
    /// The external service answered with a non-success status.
    ApiStatus(u16),
    /// The external service answered with an empty result set.
    NoChoices,
    /// The response text did not parse as the result schema.
    ParseJson { source: String, content: String },
    /// Reading the input file failed.
    FileRead(String),
    /// The image is over the size cap for vision classification.
    ImageTooLarge { actual_bytes: u64, max_bytes: u64 },
    /// PDF text extraction failed.
    PdfExtract(String),
    /// Loading the image for OCR failed.
    OcrLoad(String),
    /// OCR text extraction failed.
    OcrExtract(String),
}

/// Size of one megabyte in bytes.
pub const BYTES_PER_MB: u64 = 1048576;

/// The whole megabytes and the tenths digit of a byte count, rendered as
/// `"<mb>.<tenths>"`.
pub open spec fn mb_rendered(bytes: u64) -> Seq<char> {
    dec_str((bytes as nat) / (BYTES_PER_MB as nat)) + "."@ + dec_str(
        (bytes as nat) % (BYTES_PER_MB as nat) * 10 / (BYTES_PER_MB as nat),
    )
}

/// Render a byte count as megabytes with one decimal place.
pub fn mb_string(bytes: u64) -> (s: String)
    ensures
        s@ == mb_rendered(bytes),
{
    let mut s = u64_to_string(bytes / BYTES_PER_MB);
    s.append(".");
    let tenths = bytes % BYTES_PER_MB * 10 / BYTES_PER_MB;
    let t = u64_to_string(tenths);
    s.append(t.as_str());
    s
}

impl ClassifierError {
    /// The message shown for this error.
    pub open spec fn rendered(&self) -> Seq<char> {
        match self {
            ClassifierError::MissingApiKey => "OPENAI_API_KEY not set in environment"@,
            ClassifierError::HttpClient(m) => "Failed to create HTTP client: "@ + m@,
            ClassifierError::ApiStatus(code) => "OpenAI API error (status "@ + dec_str(
                *code as nat,
            ) + ")"@,
            ClassifierError::NoChoices => "OpenAI returned no choices"@,
            ClassifierError::ParseJson { source, content } => "Failed to parse GPT JSON response: "@
                + source@ + ". Content: "@ + content@,
            ClassifierError::FileRead(m) => "Failed to read file: "@ + m@,
            ClassifierError::ImageTooLarge { actual_bytes, max_bytes } => "Image file too large ("@
                + mb_rendered(*actual_bytes) + " MB). Maximum is "@ + dec_str(
                (*max_bytes as nat) / (BYTES_PER_MB as nat),
            ) + " MB."@,
            ClassifierError::PdfExtract(m) => "Failed to extract PDF text: "@ + m@,
            ClassifierError::OcrLoad(m) => "Failed to load image for OCR: "@ + m@,
            ClassifierError::OcrExtract(m) => "OCR extraction failed: "@ + m@,
        }
    }

    /// Render the error message.
    pub fn message(&self) -> (m: String)
        ensures
            m@ == self.rendered(),
    {
        match self {
            ClassifierError::MissingApiKey => {
                let mut s = String::new();
                s.append("OPENAI_API_KEY not set in environment");
                s
            },
            ClassifierError::HttpClient(t) => {
                let mut s = String::new();
                s.append("Failed to create HTTP client: ");
                s.append(t.as_str());
                s
            },
            ClassifierError::ApiStatus(code) => {
                let mut s = String::new();
                s.append("OpenAI API error (status ");
                let c = u64_to_string(*code as u64);
                s.append(c.as_str());
                s.append(")");
                s
            },
            ClassifierError::NoChoices => {
                let mut s = String::new();
                s.append("OpenAI returned no choices");
                s
            },
            ClassifierError::ParseJson { source, content } => {
                let mut s = String::new();
                s.append("Failed to parse GPT JSON response: ");
                s.append(source.as_str());
                s.append(". Content: ");
                s.append(content.as_str());
                s
            },
            ClassifierError::FileRead(t) => {
                let mut s = String::new();
                s.append("Failed to read file: ");
                s.append(t.as_str());
                s
            },
            ClassifierError::ImageTooLarge { actual_bytes, max_bytes } => {
                let mut s = String::new();
                s.append("Image file too large (");
                let mb = mb_string(*actual_bytes);
                s.append(mb.as_str());
                s.append(" MB). Maximum is ");
                let mx = u64_to_string(*max_bytes / BYTES_PER_MB);
                s.append(mx.as_str());
                s.append(" MB.");
                s
            },
            ClassifierError::PdfExtract(t) => {
                let mut s = String::new();
                s.append("Failed to extract PDF text: ");
                s.append(t.as_str());
                s
            },
            ClassifierError::OcrLoad(t) => {
                let mut s = String::new();
                s.append("Failed to load image for OCR: ");
                s.append(t.as_str());
                s
            },
            ClassifierError::OcrExtract(t) => {
                let mut s = String::new();
                s.append("OCR extraction failed: ");
                s.append(t.as_str());
                s
            },
        }
    }
}

} // verus!
