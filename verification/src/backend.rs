use vstd::prelude::*;

use crate::config::BackendConfig;
use crate::error::Error;
use crate::models::{parts_of, reports_missing, resolution, ModelLocation};
use crate::segment::{empty_transcription, Transcription};
use crate::whisper::{
    final_pass_allowed, finished, pass_allowed, passed, planned, text_consistent, BackendView,
    stream_end, with_buffered, ChunkPlan, PassError, PassOutcome, RawSegment, WhisperBackend,
};

verus! {

/// A speech recognition backend.
#[derive(Debug)]
pub enum Backend {
    Whisper(WhisperBackend),
}

impl View for Backend {
    type V = BackendView;

    open spec fn view(&self) -> BackendView {
        match self {
            Backend::Whisper(w) => w@,
        }
    }
}

/// The state of a fresh backend for `cfg`.
pub open spec fn initial_backend(cfg: BackendConfig) -> BackendView {
    match cfg {
        BackendConfig::Whisper(c) => BackendView {
            time_offset: 0,
            buffered: 0,
            silence: 0,
            transcription: empty_transcription(),
            config: c,
        },
    }
}

/// `res` is what starting a backend for `cfg` gives when `present` tells which of its
/// models were found: a fresh backend and the models to download first, or the error for
/// the first missing model where downloads are not allowed.
pub open spec fn started<T: View<V = BackendView>>(
    cfg: BackendConfig,
    present: Seq<bool>,
    res: Result<(T, Vec<ModelLocation>), Error>,
) -> bool {
    match (res, resolution(cfg.model_parts(), present, cfg.auto_download())) {
        (Ok((b, downloads)), Ok(missing)) => parts_of(downloads@) == missing && b@ == initial_backend(
            cfg,
        ),
        (Err(e), Err(m)) => reports_missing(e, m),
        _ => false,
    }
}

impl Backend {
    /// The state is well formed.
    pub open spec fn wf(&self) -> bool {
        match self {
            Backend::Whisper(w) => w.wf(),
        }
    }

    /// Starts a backend for `cfg`. `present[i]` tells whether the file of the `i`-th model
    /// of `cfg.model_locations()` was found. Returns the fresh backend together with the
    /// models to download before it runs; where the configuration does not allow
    /// downloads, a missing model is an error.
    pub fn from_config(cfg: BackendConfig, present: &Vec<bool>) -> (res: Result<(Backend, Vec<ModelLocation>), Error>)
        ensures
            started(cfg, present@, res),
            res matches Ok((b, _)) ==> b.wf(),
    {
        let downloads = match cfg.resolve_models(present) {
            Ok(d) => d,
            Err(e) => {
                return Err(e);
            },
        };
        match cfg {
            BackendConfig::Whisper(config) => {
                Ok((Backend::Whisper(WhisperBackend::new(config)), downloads))
            },
        }
    }

    /// The transcription so far.
    pub fn transcription(&self) -> (res: &Transcription)
        ensures
            res@ == self@.transcription,
    {
        match self {
            Backend::Whisper(w) => w.transcription(),
        }
    }

    /// The first step on an audio chunk; see `WhisperBackend::plan_chunk`.
    pub fn plan_chunk(&mut self, chunk_len: usize, vad: Result<i32, String>) -> (res: Result<ChunkPlan, Error>)
        requires
            old(self).wf(),
            stream_end(old(self)@) + chunk_len <= u64::MAX,
            old(self)@.buffered + chunk_len <= usize::MAX,
        ensures
            final(self).wf(),
            planned(old(self)@, final(self)@, chunk_len as nat, vad, res),
            res matches Ok(ChunkPlan::Skip { transcription, .. }) ==> text_consistent(
                transcription@,
            ),
    {
        match self {
            Backend::Whisper(w) => w.plan_chunk(chunk_len, vad),
        }
    }

    /// Adds a last chunk to the audio buffer; see `WhisperBackend::append_chunk`.
    pub fn append_chunk(&mut self, chunk_len: usize)
        requires
            old(self).wf(),
            stream_end(old(self)@) + chunk_len <= u64::MAX,
            old(self)@.buffered + chunk_len <= usize::MAX,
        ensures
            final(self)@ == with_buffered(old(self)@, chunk_len as nat),
            final(self).wf(),
    {
        match self {
            Backend::Whisper(w) => w.append_chunk(chunk_len),
        }
    }

    /// The second step on an audio chunk; see `WhisperBackend::apply_pass`.
    pub fn apply_pass(&mut self, flush: bool, pass: Result<Vec<Option<RawSegment>>, PassError>) -> (res:
        PassOutcome)
        requires
            old(self).wf(),
            pass_allowed(old(self)@, flush, pass),
        ensures
            final(self).wf(),
            passed(old(self)@, final(self)@, flush, pass, res),
            res.result matches Ok(t) ==> text_consistent(t@),
    {
        match self {
            Backend::Whisper(w) => w.apply_pass(flush, pass),
        }
    }

    /// Finishes the transcription; see `WhisperBackend::finish_transcribing`.
    pub fn finish_transcribing(self, pass: Result<Vec<Option<RawSegment>>, PassError>) -> (res: Result<Transcription, Error>)
        requires
            self.wf(),
            final_pass_allowed(pass),
        ensures
            finished(self@, pass, res),
            res matches Ok(t) ==> text_consistent(t@),
    {
        match self {
            Backend::Whisper(w) => w.finish_transcribing(pass),
        }
    }
}

} // verus!
