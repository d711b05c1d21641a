use vstd::prelude::*;

use crate::backend::{started, Backend};
use crate::config::Config;
use crate::error::Error;
use crate::models::ModelLocation;
use crate::segment::Transcription;
use crate::whisper::{
    final_pass_allowed, finished, pass_allowed, passed, planned, text_consistent, BackendView,
    stream_end, with_buffered, ChunkPlan, PassError, PassOutcome, RawSegment,
};

verus! {

/// The decisions of a transcriber of a stream of audio chunks.
/// Each chunk takes two steps: `plan_chunk` with the outcome of voice activity detection,
/// then, where the plan says so, `apply_pass` with the outcome of the speech model's pass
/// over the audio buffer.
#[derive(Debug)]
pub struct StreamTranscriber {
    backend: Backend,
}

impl View for StreamTranscriber {
    type V = BackendView;

    closed spec fn view(&self) -> BackendView {
        self.backend@
    }
}

impl StreamTranscriber {
    /// The state is well formed.
    pub closed spec fn wf(&self) -> bool {
        self.backend.wf()
    }

    /// Creates a transcriber for `cfg`. `present[i]` tells whether the file of the `i`-th
    /// model of `cfg.backend.model_locations()` was found. Returns the transcriber together
    /// with the models to download before it runs; where the configuration does not allow
    /// downloads, a missing model is an error.
    pub fn create(cfg: Config, present: &Vec<bool>) -> (res: Result<(Self, Vec<ModelLocation>), Error>)
        ensures
            started(cfg.backend, present@, res),
            res matches Ok((t, _)) ==> t.wf(),
    {
        match Backend::from_config(cfg.backend, present) {
            Ok((backend, downloads)) => Ok((StreamTranscriber { backend }, downloads)),
            Err(e) => Err(e),
        }
    }

    /// The backend that holds the state of the stream.
    pub fn backend(&self) -> (res: &Backend)
        ensures
            res@ == self@,
    {
        &self.backend
    }

    /// The transcription so far.
    pub fn transcription(&self) -> (res: &Transcription)
        ensures
            res@ == self@.transcription,
    {
        self.backend.transcription()
    }

    /// The first step on an audio chunk of `chunk_len` samples, given the outcome of voice
    /// activity detection on it.
    pub fn plan_chunk(&mut self, chunk_len: usize, vad: Result<i32, String>) -> (res: Result<ChunkPlan, Error>)
        requires
            old(self).wf(),
            stream_end(old(self)@) + chunk_len <= u64::MAX,
            old(self)@.buffered + chunk_len <= usize::MAX,
        ensures
            final(self).wf(),
            planned(old(self)@, final(self)@, chunk_len as nat, vad, res),
            res matches Ok(ChunkPlan::Skip { transcription, .. }) ==> text_consistent(
                transcription@,
            ),
    {
        self.backend.plan_chunk(chunk_len, vad)
    }

    /// Adds a last chunk of `chunk_len` samples to the audio buffer, to be transcribed by
    /// the last pass of `finish_transcribing`.
    pub fn append_chunk(&mut self, chunk_len: usize)
        requires
            old(self).wf(),
            stream_end(old(self)@) + chunk_len <= u64::MAX,
            old(self)@.buffered + chunk_len <= usize::MAX,
        ensures
            final(self)@ == with_buffered(old(self)@, chunk_len as nat),
            final(self).wf(),
    {
        self.backend.append_chunk(chunk_len)
    }

    /// The second step on an audio chunk, given the outcome of the speech model's pass over
    /// the audio buffer. The result holds all text transcribed up to now.
    pub fn apply_pass(&mut self, flush: bool, pass: Result<Vec<Option<RawSegment>>, PassError>) -> (res:
        PassOutcome)
        requires
            old(self).wf(),
            pass_allowed(old(self)@, flush, pass),
        ensures
            final(self).wf(),
            passed(old(self)@, final(self)@, flush, pass, res),
            res.result matches Ok(t) ==> text_consistent(t@),
    {
        self.backend.apply_pass(flush, pass)
    }

    /// Finishes the transcription, given the outcome of the last pass of the speech model
    /// over the audio buffer, and returns the total transcription.
    pub fn finish_transcribing(self, pass: Result<Vec<Option<RawSegment>>, PassError>) -> (res: Result<Transcription, Error>)
        requires
            self.wf(),
            final_pass_allowed(pass),
        ensures
            finished(self@, pass, res),
            res matches Ok(t) ==> text_consistent(t@),
    {
        self.backend.finish_transcribing(pass)
    }
}

} // verus!
