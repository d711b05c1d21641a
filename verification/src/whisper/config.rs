use vstd::prelude::*;

verus! {

/// Config for the whisper ASR backend.
#[derive(Debug)]
pub struct Config {
    /// The model to use.
    /// The model must be available in the `model_dir`/whisper/ directory.
    pub model: WhisperModel,
    /// The vad model to use.
    /// Currently only supports silero.
    pub vad: VadModel,
    /// The directory that contains the models.
    pub model_dir: String,
    /// The amount of segments to buffer when processing audio chunks.
    /// Higher values give better transcription quality at the cost of processing time.
    pub segment_buffer: i32,
    /// If set automatically downloads missing models.
    pub auto_download_models: bool,
}

/// Supported whisper models.
#[derive(Debug)]
pub enum WhisperModel {
    Small,
    Tiny,
    Base,
    Medium,
    Large,
    Turbo,
    Custom { name: String, base_url: String },
}

/// Supported voice activity detection models.
#[derive(Debug)]
pub enum VadModel {
    Silero,
    Custom { name: String, base_url: String },
}

impl Clone for WhisperModel {
    fn clone(&self) -> (res: Self)
        ensures
            res == *self,
    {
        match self {
            WhisperModel::Small => WhisperModel::Small,
            WhisperModel::Tiny => WhisperModel::Tiny,
            WhisperModel::Base => WhisperModel::Base,
            WhisperModel::Medium => WhisperModel::Medium,
            WhisperModel::Large => WhisperModel::Large,
            WhisperModel::Turbo => WhisperModel::Turbo,
            WhisperModel::Custom { name, base_url } => WhisperModel::Custom {
                name: name.clone(),
                base_url: base_url.clone(),
            },
        }
    }
}

impl Clone for VadModel {
    fn clone(&self) -> (res: Self)
        ensures
            res == *self,
    {
        match self {
            VadModel::Silero => VadModel::Silero,
            VadModel::Custom { name, base_url } => VadModel::Custom {
                name: name.clone(),
                base_url: base_url.clone(),
            },
        }
    }
}

impl Clone for Config {
    fn clone(&self) -> (res: Self)
        ensures
            res == *self,
    {
        Config {
            model: self.model.clone(),
            vad: self.vad.clone(),
            model_dir: self.model_dir.clone(),
            segment_buffer: self.segment_buffer,
            auto_download_models: self.auto_download_models,
        }
    }
}

/// The directory the default configuration looks for models in.
pub open spec fn default_model_dir() -> Seq<char> {
    "./models"@
}

impl Default for Config {
    /// The medium english whisper model with the silero vad model, both looked up in
    /// `./models`, one buffered segment and no automatic downloads.
    fn default() -> (res: Self)
        ensures
            res.model == WhisperModel::Medium,
            res.vad == VadModel::Silero,
            res.model_dir@ == default_model_dir(),
            res.segment_buffer == 1,
            !res.auto_download_models,
    {
        Config {
            model: WhisperModel::Medium,
            vad: VadModel::Silero,
            model_dir: String::from_str("./models"),
            segment_buffer: 1,
            auto_download_models: false,
        }
    }
}

} // verus!
