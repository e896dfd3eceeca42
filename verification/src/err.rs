//! The failure taxonomy of the extraction pipeline. Every failure carries a
//! distinct kind, written to the durable status trail as a short code.

use vstd::prelude::*;
use crate::text::dec_str;
use crate::text::u64_to_dec_string;

verus! {

/// One tag for each way an identifier's extraction can fail.
#[derive(Clone, Copy, Debug, PartialEq, Eq, Structural)]
pub enum ErrorKind {
    Io,
    JsonDeser,
    Pdf,
    NoKeywords,
    MissingSection,
    Utf8,
    Db,
    Network,
    HttpStat,
    NoGcsObj,
    Other,
}

/// An extraction failure together with what the failing stage reported.
#[derive(Debug, PartialEq, Eq)]
pub enum AppError {
    IO(String),
    JsonDeserialization(String),
    PdfError(String),
    NoKeywords,
    MissingSection(String),
    Utf8(String),
    Db(String),
    Network(String),
    HttpStatusError(u16),
    NoBucketObject(String),
    Other(String),
}

pub type AppResult<T> = Result<T, AppError>;

/// The status code written to the durable status trail for each kind.
pub open spec fn kind_code(k: ErrorKind) -> Seq<char> {
    match k {
        ErrorKind::Io => "IO"@,
        ErrorKind::JsonDeser => "JSON_DESER"@,
        ErrorKind::Pdf => "PDF"@,
        ErrorKind::NoKeywords => "NO_KEYWORDS"@,
        ErrorKind::MissingSection => "MISSING_SECTION"@,
        ErrorKind::Utf8 => "UTF8"@,
        ErrorKind::Db => "DB"@,
        ErrorKind::Network => "NETWORK"@,
        ErrorKind::HttpStat => "HTTP_STAT"@,
        ErrorKind::NoGcsObj => "NO_GCS_OBJ"@,
        ErrorKind::Other => "OTHER"@,
    }
}

pub fn kind_code_string(k: ErrorKind) -> (r: String)
    ensures
        r@ == kind_code(k),
{
    match k {
        ErrorKind::Io => String::from_str("IO"),
        ErrorKind::JsonDeser => String::from_str("JSON_DESER"),
        ErrorKind::Pdf => String::from_str("PDF"),
        ErrorKind::NoKeywords => String::from_str("NO_KEYWORDS"),
        ErrorKind::MissingSection => String::from_str("MISSING_SECTION"),
        ErrorKind::Utf8 => String::from_str("UTF8"),
        ErrorKind::Db => String::from_str("DB"),
        ErrorKind::Network => String::from_str("NETWORK"),
        ErrorKind::HttpStat => String::from_str("HTTP_STAT"),
        ErrorKind::NoGcsObj => String::from_str("NO_GCS_OBJ"),
        ErrorKind::Other => String::from_str("OTHER"),
    }
}

impl AppError {
    /// The kind recorded for this error.
    pub open spec fn kind_spec(&self) -> ErrorKind {
        match self {
            AppError::IO(_) => ErrorKind::Io,
            AppError::JsonDeserialization(_) => ErrorKind::JsonDeser,
            AppError::PdfError(_) => ErrorKind::Pdf,
            AppError::NoKeywords => ErrorKind::NoKeywords,
            AppError::MissingSection(_) => ErrorKind::MissingSection,
            AppError::Utf8(_) => ErrorKind::Utf8,
            AppError::Db(_) => ErrorKind::Db,
            AppError::Network(_) => ErrorKind::Network,
            AppError::HttpStatusError(_) => ErrorKind::HttpStat,
            AppError::NoBucketObject(_) => ErrorKind::NoGcsObj,
            AppError::Other(_) => ErrorKind::Other,
        }
    }

    pub fn kind(&self) -> (r: ErrorKind)
        ensures
            r == self.kind_spec(),
    {
        match self {
            AppError::IO(_) => ErrorKind::Io,
            AppError::JsonDeserialization(_) => ErrorKind::JsonDeser,
            AppError::PdfError(_) => ErrorKind::Pdf,
            AppError::NoKeywords => ErrorKind::NoKeywords,
            AppError::MissingSection(_) => ErrorKind::MissingSection,
            AppError::Utf8(_) => ErrorKind::Utf8,
            AppError::Db(_) => ErrorKind::Db,
            AppError::Network(_) => ErrorKind::Network,
            AppError::HttpStatusError(_) => ErrorKind::HttpStat,
            AppError::NoBucketObject(_) => ErrorKind::NoGcsObj,
            AppError::Other(_) => ErrorKind::Other,
        }
    }

    /// What the failing stage reported, as recorded in a status row.
    pub open spec fn message_spec(&self) -> Seq<char> {
        match self {
            AppError::IO(s) => s@,
            AppError::JsonDeserialization(s) => s@,
            AppError::PdfError(s) => s@,
            AppError::NoKeywords => Seq::empty(),
            AppError::MissingSection(s) => s@,
            AppError::Utf8(s) => s@,
            AppError::Db(s) => s@,
            AppError::Network(s) => s@,
            AppError::HttpStatusError(c) => dec_str(*c as nat),
            AppError::NoBucketObject(s) => s@,
            AppError::Other(s) => s@,
        }
    }

    pub fn message(&self) -> (r: String)
        ensures
            r@ == self.message_spec(),
    {
        match self {
            AppError::IO(s) => s.clone(),
            AppError::JsonDeserialization(s) => s.clone(),
            AppError::PdfError(s) => s.clone(),
            AppError::NoKeywords => String::new(),
            AppError::MissingSection(s) => s.clone(),
            AppError::Utf8(s) => s.clone(),
            AppError::Db(s) => s.clone(),
            AppError::Network(s) => s.clone(),
            AppError::HttpStatusError(c) => u64_to_dec_string(*c as u64),
            AppError::NoBucketObject(s) => s.clone(),
            AppError::Other(s) => s.clone(),
        }
    }
}

} // verus!
