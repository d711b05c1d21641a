use vstd::prelude::*;

verus! {

/// The errors of this library.
/// Errors raised by the speech models or by I/O are carried as their messages.
#[derive(Debug)]
pub enum Error {
    /// An error occured during model initialization.
    ModelInit { model: String, error: String },
    /// The transcription attempt failed.
    Transcribe(String),
    /// vad failed.
    Vad(String),
    /// ASR backend initializion failed due to an unknown reason.
    /// This should not happen unless the asr thread exits unexpectedly.
    BackendInit,
    /// Failed to get the speech segments from whisper.
    SegmentParseFailed,
    /// Model download failed.
    Download(String),
    /// Worker has been shutdown.
    /// Only returned by the asynchronous transcriber.
    WorkerShutdown(String),
    /// The model was not found at the path and model downloading is disabled.
    ModelNotFound { model: String, path: String, url: String },
}

pub type Result<T> = core::result::Result<T, Error>;

/// The text that describes `e`.
pub open spec fn error_message(e: Error) -> Seq<char> {
    match e {
        Error::ModelInit { model, error } => "Failed to initialize "@ + model@ + ": "@ + error@,
        Error::Transcribe(m) => "Failed to transcribe audio: "@ + m@,
        Error::Vad(m) => "Failed to run vad on audio: "@ + m@,
        Error::BackendInit => "Failed to initialize asr backend"@,
        Error::SegmentParseFailed => "Failed to get segment"@,
        Error::Download(m) => "Failed to download model: "@ + m@,
        Error::WorkerShutdown(m) => "Worker has been shutdown: "@ + m@,
        Error::ModelNotFound { model, path, url } => model@ + " Model was not found at "@ + path@
            + ". Download it from "@ + url@,
    }
}

impl Error {
    /// The text that describes this error.
    pub fn message(&self) -> (res: String)
        ensures
            res@ == error_message(*self),
    {
        match self {
            Error::ModelInit { model, error } => String::from_str("Failed to initialize ").concat(
                model.as_str(),
            ).concat(": ").concat(error.as_str()),
            Error::Transcribe(m) => String::from_str("Failed to transcribe audio: ").concat(
                m.as_str(),
            ),
            Error::Vad(m) => String::from_str("Failed to run vad on audio: ").concat(m.as_str()),
            Error::BackendInit => String::from_str("Failed to initialize asr backend"),
            Error::SegmentParseFailed => String::from_str("Failed to get segment"),
            Error::Download(m) => String::from_str("Failed to download model: ").concat(m.as_str()),
            Error::WorkerShutdown(m) => String::from_str("Worker has been shutdown: ").concat(
                m.as_str(),
            ),
            Error::ModelNotFound { model, path, url } => model.clone().concat(
                " Model was not found at ",
            ).concat(path.as_str()).concat(". Download it from ").concat(url.as_str()),
        }
    }
}

} // verus!
