use vstd::prelude::*;

verus! {

/// Errors of a run. Configuration errors stop the run before any page; the
/// others are recorded against the page they happened on.
#[derive(Clone, Debug, PartialEq, Eq)]
pub enum OcrError {
    /// The document or one of its pages could not be rasterised.
    PdfError(String),
    /// A recognition backend call failed.
    OcrEngineError(String),
    /// An image could not be built or converted.
    ImageError(String),
    /// Reading or writing a file failed.
    IoError(String),
    /// Missing backend assets or an invalid setting.
    ConfigError(String),
}

/// Human-readable description of an error: its kind, then its detail.
pub open spec fn error_message(e: OcrError) -> Seq<char> {
    match e {
        OcrError::PdfError(m) => "PDF processing error: "@ + m@,
        OcrError::OcrEngineError(m) => "OCR engine error: "@ + m@,
        OcrError::ImageError(m) => "Image processing error: "@ + m@,
        OcrError::IoError(m) => "IO error: "@ + m@,
        OcrError::ConfigError(m) => "Invalid configuration: "@ + m@,
    }
}

impl OcrError {
    /// Human-readable description, led by the kind of error.
    pub fn message(&self) -> (r: String)
        ensures
            r@ == error_message(*self),
    {
        let (prefix, detail) = match self {
            OcrError::PdfError(m) => ("PDF processing error: ", m),
            OcrError::OcrEngineError(m) => ("OCR engine error: ", m),
            OcrError::ImageError(m) => ("Image processing error: ", m),
            OcrError::IoError(m) => ("IO error: ", m),
            OcrError::ConfigError(m) => ("Invalid configuration: ", m),
        };
        let mut r = String::from_str(prefix);
        r.append(detail.as_str());
        r
    }
}

} // verus!
