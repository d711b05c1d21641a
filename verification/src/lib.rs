pub mod backend;
pub mod config;
pub mod error;
pub mod models;
pub mod segment;
pub mod stream;
pub mod tui;
pub mod whisper;

pub use backend::Backend;
pub use config::{BackendConfig, Config};
pub use error::{Error, Result};
pub use segment::{Line, Segment, Silence, Timestamp, Token, Transcription};
pub use stream::StreamTranscriber;

use vstd::prelude::*;

use crate::backend::started;
use crate::models::{missing_models, parts_of, ModelLocation};

verus! {

/// Transcribes audio with the backend its configuration names.
#[derive(Debug)]
pub struct Transcriber {
    cfg: Config,
}

impl Transcriber {
    /// The configuration of this transcriber.
    pub closed spec fn spec_config(&self) -> Config {
        self.cfg
    }

    /// Creates a new transcriber for the given config.
    /// Currently does not return an error.
    pub fn new(cfg: Config) -> (res: Result<Self>)
        ensures
            res matches Ok(t) && t.spec_config() == cfg,
    {
        Ok(Transcriber { cfg })
    }

    /// The configuration of this transcriber.
    pub fn config(&self) -> (res: &Config)
        ensures
            *res == self.spec_config(),
    {
        &self.cfg
    }

    /// The models of the configuration that have to be downloaded: those whose files were
    /// not found (`present[i]` tells whether the `i`-th model of
    /// `config().backend.model_locations()` was found).
    pub fn download_models(&self, present: &Vec<bool>) -> (res: Vec<ModelLocation>)
        ensures
            parts_of(res@) == missing_models(self.spec_config().backend.model_parts(), present@),
    {
        self.cfg.backend.download_models(present)
    }

    /// Creates a transcriber that can transcribe a stream of audio chunks, together with
    /// the models to download before it runs; see `StreamTranscriber::create`.
    pub fn create_stream(&self, present: &Vec<bool>) -> (res: Result<
        (StreamTranscriber, Vec<ModelLocation>),
    >)
        ensures
            started(self.spec_config().backend, present@, res),
            res matches Ok((t, _)) ==> t.wf(),
    {
        StreamTranscriber::create(self.cfg.clone(), present)
    }
}

} // verus!
