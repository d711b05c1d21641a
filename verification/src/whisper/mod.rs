pub mod config;

pub use config::{Config, VadModel, WhisperModel};

use vstd::prelude::*;

use crate::error::Error;
use crate::segment::{
    empty_transcription, Segment, SegmentView, Silence, Timestamp, Token, Transcription,
    TranscriptionView,
};

verus! {

/// The sample rate of the audio, in samples per second. Audio is single channel.
pub const SAMPLE_RATE: usize = 16000;

/// How long a silence has to last, in samples, before buffered audio is transcribed and
/// flushed: three seconds.
pub const FLUSH_SILENCE: u64 = 48000;

/// The number of samples in `c` centiseconds of audio.
pub open spec fn samples_in_centiseconds(c: int) -> int {
    c * SAMPLE_RATE / 100
}

/// Converts the centisecond timestamp to the number of samples.
pub fn centiseconds_to_samples(c: i64) -> (res: usize)
    requires
        0 <= c,
        c * SAMPLE_RATE <= usize::MAX,
    ensures
        res == samples_in_centiseconds(c as int),
{
    (c as usize * SAMPLE_RATE) / 100
}

/// The text and tokens that the speech model gives for a segment.
#[derive(Debug)]
pub struct SegmentContent {
    pub text: String,
    pub tokens: Vec<Token>,
    /// The bits (`f32::to_bits`) of the mean probability of the tokens.
    pub probability_bits: u32,
}

/// A segment as the speech model reports it: its start and end, in centiseconds from the
/// start of the audio it was given, and its content, or the message of the error that
/// reading the content raised.
#[derive(Debug)]
pub struct RawSegment {
    pub start: i64,
    pub end: i64,
    pub content: Result<SegmentContent, String>,
}

/// Why a pass of the speech model over the buffered audio failed, with the error's message.
#[derive(Debug)]
pub enum PassError {
    /// There was no audio to transcribe.
    NoSamples(String),
    /// Any other failure.
    Failed(String),
}

impl PassError {
    pub open spec fn message(self) -> String {
        match self {
            PassError::NoSamples(m) => m,
            PassError::Failed(m) => m,
        }
    }
}

/// What to do with an audio chunk after voice activity detection.
#[derive(Debug)]
pub enum ChunkPlan {
    /// No speech to transcribe yet: the chunk is kept in the audio buffer when
    /// `keep_audio` is set, and dropped otherwise; `transcription` is the result.
    Skip { keep_audio: bool, transcription: Transcription },
    /// Append the chunk to the audio buffer, run the speech model over the buffer and
    /// hand its segments to `apply_pass`. `flush` tells whether the buffer is flushed.
    Transcribe { flush: bool },
}

/// The outcome of a pass of the speech model: how many samples to drop from the front of
/// the audio buffer, and the result of the chunk.
#[derive(Debug)]
pub struct PassOutcome {
    pub dropped: usize,
    pub result: Result<Transcription, Error>,
}

/// The state of a whisper backend: where the stream is, how much audio is buffered, how
/// long the current silence has lasted, and the transcription so far.
#[derive(Debug)]
pub struct WhisperBackend {
    time_offset: u64,
    buffered: usize,
    silence: u64,
    state: Transcription,
    config: Config,
}

/// The state of a whisper backend as plain values. Times are counted in samples.
#[verifier::ext_equal]
pub struct BackendView {
    /// The position in the stream, in samples, of the start of the audio buffer.
    pub time_offset: nat,
    /// The number of samples in the audio buffer.
    pub buffered: nat,
    /// How long the current silence has lasted.
    pub silence: nat,
    pub transcription: TranscriptionView,
    /// The configuration the backend was made with.
    pub config: Config,
}

impl View for WhisperBackend {
    type V = BackendView;

    closed spec fn view(&self) -> BackendView {
        BackendView {
            time_offset: self.time_offset as nat,
            buffered: self.buffered as nat,
            silence: self.silence as nat,
            transcription: self.state@,
            config: self.config,
        }
    }
}

/// The text of `segments`, one after another.
pub open spec fn texts_of(segments: Seq<SegmentView>) -> Seq<char>
    decreases segments.len(),
{
    if segments.len() == 0 {
        Seq::empty()
    } else {
        texts_of(segments.drop_last()) + segments.last().text
    }
}

/// The text of two runs of segments is the text of the first, then that of the second.
pub proof fn lemma_texts_of_concat(a: Seq<SegmentView>, b: Seq<SegmentView>)
    ensures
        texts_of(a + b) == texts_of(a) + texts_of(b),
    decreases b.len(),
{
    if b.len() == 0 {
        assert(a + b =~= a);
        assert(texts_of(b) =~= Seq::<char>::empty());
        assert(texts_of(a) + texts_of(b) =~= texts_of(a));
    } else {
        lemma_texts_of_concat(a, b.drop_last());
        assert((a + b).drop_last() =~= a + b.drop_last());
        assert((a + b).last() == b.last());
        assert(texts_of(a) + texts_of(b.drop_last()) + b.last().text =~= texts_of(a) + (texts_of(
            b.drop_last(),
        ) + b.last().text));
    }
}

/// A transcription whose full text is the text of its finalized segments.
pub open spec fn text_consistent(t: TranscriptionView) -> bool {
    t.full_text == texts_of(t.finalized)
}

/// The position in the stream, in samples, of the end of the audio seen so far: the end
/// of the audio buffer.
pub open spec fn stream_end(m: BackendView) -> nat {
    m.time_offset + m.buffered
}

/// The well-formedness of a backend state: the full text is that of the finalized
/// segments, the silence lies within the audio seen so far, and so does the silence that
/// is going on.
pub open spec fn backend_wf(m: BackendView) -> bool {
    &&& text_consistent(m.transcription)
    &&& m.silence <= stream_end(m)
    &&& stream_end(m) <= u64::MAX
    &&& m.buffered <= usize::MAX
    &&& match m.transcription.current_silence {
        Some(s) => 0 <= s.timestamp.start <= s.timestamp.end <= stream_end(m),
        None => true,
    }
}

/// `a` is `b` with its silence fields replaced.
pub open spec fn with_silences(
    t: TranscriptionView,
    silences: Seq<Silence>,
    current: Option<Silence>,
) -> TranscriptionView {
    TranscriptionView {
        finalized: t.finalized,
        silences,
        processing: t.processing,
        current_silence: current,
        full_text: t.full_text,
        is_complete: t.is_complete,
    }
}

/// The state after a silent chunk of `n` samples that is not transcribed. Where audio is
/// buffered the chunk joins the buffer; otherwise it is dropped and the buffer, empty,
/// starts after it. The silence count grows by `n`, and the current silence is stretched
/// by `n`, or starts where the silence started, counted back from the end of the stream.
pub open spec fn after_silence(m: BackendView, n: nat) -> BackendView {
    let end = stream_end(m) + n;
    let silence = m.silence + n;
    let current = match m.transcription.current_silence {
        Some(s) => Silence {
            timestamp: Timestamp { start: s.timestamp.start, end: (s.timestamp.end + n) as i128 },
        },
        None => Silence {
            timestamp: Timestamp { start: (end - silence) as i128, end: end as i128 },
        },
    };
    BackendView {
        time_offset: if m.buffered == 0 { m.time_offset + n } else { m.time_offset },
        buffered: if m.buffered == 0 { 0 } else { m.buffered + n },
        silence,
        transcription: with_silences(m.transcription, m.transcription.silences, Some(current)),
        config: m.config,
    }
}

/// The state once speech is heard: a silence that has lasted is moved to the past silences
/// and the silence count starts again.
pub open spec fn after_speech(m: BackendView) -> BackendView {
    if m.silence > 0 {
        let silences = match m.transcription.current_silence {
            Some(s) => m.transcription.silences.push(s),
            None => m.transcription.silences,
        };
        BackendView {
            time_offset: m.time_offset,
            buffered: m.buffered,
            silence: 0,
            transcription: with_silences(m.transcription, silences, None),
            config: m.config,
        }
    } else {
        m
    }
}

/// `m` with `n` more samples in the audio buffer.
pub open spec fn with_buffered(m: BackendView, n: nat) -> BackendView {
    BackendView {
        time_offset: m.time_offset,
        buffered: m.buffered + n,
        silence: m.silence,
        transcription: m.transcription,
        config: m.config,
    }
}

/// Whether a chunk whose voice activity detection found `vad_segments` segments is
/// skipped: no speech, and either nothing is buffered or the silence is still short.
pub open spec fn skips_chunk(m: BackendView, vad_segments: i32) -> bool {
    vad_segments <= 0 && (m.buffered == 0 || m.silence < FLUSH_SILENCE)
}

/// The state after a chunk of `chunk_len` samples whose voice activity detection found
/// `vad_segments` segments.
pub open spec fn after_vad(m: BackendView, chunk_len: nat, vad_segments: i32) -> BackendView {
    if skips_chunk(m, vad_segments) {
        after_silence(m, chunk_len)
    } else if vad_segments > 0 {
        with_buffered(after_speech(m), chunk_len)
    } else {
        with_buffered(m, chunk_len)
    }
}

/// The segment that `raw` describes, placed in the stream at `offset` samples.
pub open spec fn segment_from(raw: RawSegment, offset: int) -> Result<SegmentView, Error> {
    match raw.content {
        Ok(c) => Ok(
            SegmentView {
                text: c.text@,
                tokens: c.tokens.deep_view(),
                probability_bits: c.probability_bits,
                timestamp: Timestamp {
                    start: (offset + samples_in_centiseconds(raw.start as int)) as i128,
                    end: (offset + samples_in_centiseconds(raw.end as int)) as i128,
                },
            },
        ),
        Err(message) => Err(Error::Transcribe(message)),
    }
}

/// Reading the segment at `idx` of a pass that reported `reads`: a segment the model did
/// not return, or one past the end, cannot be read.
pub open spec fn segment_at(reads: Seq<Option<RawSegment>>, offset: int, idx: int) -> Result<
    SegmentView,
    Error,
> {
    if 0 <= idx < reads.len() {
        match reads[idx] {
            Some(raw) => segment_from(raw, offset),
            None => Err(Error::SegmentParseFailed),
        }
    } else {
        Err(Error::SegmentParseFailed)
    }
}

/// The end, in centiseconds, of the last segment to finalize (the one before `ps`), where
/// the model returned it.
pub open spec fn drop_point(reads: Seq<Option<RawSegment>>, ps: int) -> Option<i64> {
    if 0 <= ps - 1 < reads.len() {
        match reads[ps - 1] {
            Some(raw) => Some(raw.end),
            None => None,
        }
    } else {
        None
    }
}

/// Reading the segments `lo..hi` one after another: the segments read before the first
/// failure, and that failure, if any.
pub open spec fn read_segments(reads: Seq<Option<RawSegment>>, offset: int, lo: int, hi: int) -> (
    Seq<SegmentView>,
    Option<Error>,
)
    decreases hi - lo,
{
    if hi <= lo {
        (Seq::empty(), None)
    } else {
        let (done, failure) = read_segments(reads, offset, lo, hi - 1);
        if failure is Some {
            (done, failure)
        } else {
            match segment_at(reads, offset, hi - 1) {
                Ok(s) => (done.push(s), None),
                Err(e) => (done, Some(e)),
            }
        }
    }
}

/// Once reading fails, reading further segments changes nothing.
proof fn lemma_read_segments_stop(reads: Seq<Option<RawSegment>>, offset: int, lo: int, k: int, hi: int)
    requires
        lo <= k <= hi,
        read_segments(reads, offset, lo, k).1 is Some,
    ensures
        read_segments(reads, offset, lo, hi) == read_segments(reads, offset, lo, k),
    decreases hi - k,
{
    if hi > k {
        lemma_read_segments_stop(reads, offset, lo, k, hi - 1);
    }
}

/// Whether a pass that found `n` segments finalizes some of them.
pub open spec fn finalizes(m: BackendView, n: int, flush: bool) -> bool {
    n > m.config.segment_buffer || flush
}

/// The index of the first segment that is still being processed after a pass that found
/// `n` segments: all of them on a flush, else all but the last `segment_buffer`.
pub open spec fn partials_start(m: BackendView, n: int, flush: bool) -> int {
    if !finalizes(m, n, flush) {
        0
    } else if flush {
        n
    } else {
        n - m.config.segment_buffer
    }
}

/// What a pass needs of its input: a segment count that fits a C `int`, a split point
/// that fits one too, a drop point that is a sample count, and a buffer that fits the
/// stream position.
pub open spec fn pass_admissible(m: BackendView, flush: bool, reads: Seq<Option<RawSegment>>) -> bool {
    let n = reads.len() as int;
    let ps = partials_start(m, n, flush);
    &&& n <= i32::MAX
    &&& ps <= i32::MAX
    &&& (finalizes(m, n, flush) && !flush) ==> match drop_point(reads, ps) {
        Some(end) => 0 <= end && end * SAMPLE_RATE <= usize::MAX,
        None => true,
    }
}

/// The number of samples that a pass drops from the front of the buffer.
pub open spec fn dropped_by(m: BackendView, flush: bool, reads: Seq<Option<RawSegment>>) -> nat {
    let n = reads.len() as int;
    let ps = partials_start(m, n, flush);
    if !finalizes(m, n, flush) {
        0
    } else if flush {
        m.buffered
    } else {
        match drop_point(reads, ps) {
            Some(end_cs) => {
                let end = samples_in_centiseconds(end_cs as int);
                if end < m.buffered {
                    end as nat
                } else {
                    m.buffered
                }
            },
            None => 0,
        }
    }
}

/// The transcription `t` with `segments` finalized after its finalized segments.
pub open spec fn with_finalized(t: TranscriptionView, segments: Seq<SegmentView>) -> TranscriptionView {
    TranscriptionView {
        finalized: t.finalized + segments,
        silences: t.silences,
        processing: t.processing,
        current_silence: t.current_silence,
        full_text: t.full_text + texts_of(segments),
        is_complete: t.is_complete,
    }
}

/// The transcription `t` with `segments` as the segments being processed.
pub open spec fn with_processing(t: TranscriptionView, segments: Seq<SegmentView>) -> TranscriptionView {
    TranscriptionView {
        finalized: t.finalized,
        silences: t.silences,
        processing: segments,
        current_silence: t.current_silence,
        full_text: t.full_text,
        is_complete: t.is_complete,
    }
}

/// The state after a pass that found the segments `reads`, and the failure of the pass,
/// if any. Segments are placed by the stream position before the pass.
pub open spec fn after_pass(m: BackendView, flush: bool, reads: Seq<Option<RawSegment>>) -> (
    BackendView,
    Option<Error>,
) {
    let n = reads.len() as int;
    let ps = partials_start(m, n, flush);
    let offset = m.time_offset as int;
    if finalizes(m, n, flush) && !flush && drop_point(reads, ps) is None {
        (m, Some(Error::SegmentParseFailed))
    } else {
        let dropped = dropped_by(m, flush, reads);
        let (finalized, failure) = read_segments(reads, offset, 0, ps);
        let t = with_finalized(m.transcription, finalized);
        let (t2, failure2) = if failure is Some {
            (t, failure)
        } else {
            let (processing, failure2) = read_segments(reads, offset, ps, n);
            (with_processing(t, processing), failure2)
        };
        (
            BackendView {
                time_offset: m.time_offset + dropped,
                buffered: (m.buffered - dropped) as nat,
                silence: m.silence,
                transcription: t2,
                config: m.config,
            },
            failure2,
        )
    }
}

/// The transcription `t`, finished: no segment is left being processed, and it is
/// complete.
/// The transcription `t`, marked complete, with everything else kept.
pub open spec fn marked_complete(t: TranscriptionView) -> TranscriptionView {
    TranscriptionView {
        finalized: t.finalized,
        silences: t.silences,
        processing: t.processing,
        current_silence: t.current_silence,
        full_text: t.full_text,
        is_complete: true,
    }
}

pub open spec fn completed(t: TranscriptionView) -> TranscriptionView {
    TranscriptionView {
        finalized: t.finalized,
        silences: t.silences,
        processing: Seq::empty(),
        current_silence: t.current_silence,
        full_text: t.full_text,
        is_complete: true,
    }
}

/// The final transcription after the last pass found the segments `reads`, or the
/// failure of reading them. The segments of the last pass replace those being processed,
/// which came from the same audio.
pub open spec fn after_final_pass(m: BackendView, reads: Seq<Option<RawSegment>>) -> Result<
    TranscriptionView,
    Error,
> {
    let (finalized, failure) = read_segments(reads, m.time_offset as int, 0, reads.len() as int);
    match failure {
        Some(e) => Err(e),
        None => Ok(completed(with_finalized(m.transcription, finalized))),
    }
}

/// `res` is what the first step on a chunk of `chunk_len` samples gives, from the state `m`
/// to the state `after`, when voice activity detection gave `vad`.
pub open spec fn planned(
    m: BackendView,
    after: BackendView,
    chunk_len: nat,
    vad: Result<i32, String>,
    res: Result<ChunkPlan, Error>,
) -> bool {
    match vad {
        Err(message) => after == m && res == Err::<ChunkPlan, Error>(Error::Vad(message)),
        Ok(vad_segments) => {
            &&& after == after_vad(m, chunk_len, vad_segments)
            &&& match res {
                Ok(ChunkPlan::Skip { keep_audio, transcription }) => {
                    &&& skips_chunk(m, vad_segments)
                    &&& keep_audio == (m.buffered != 0)
                    &&& transcription@ == after.transcription
                },
                Ok(ChunkPlan::Transcribe { flush }) => {
                    &&& !skips_chunk(m, vad_segments)
                    &&& flush == (vad_segments == 0)
                },
                Err(_) => false,
            }
        },
    }
}

/// What the second step on a chunk needs of the outcome of the pass.
pub open spec fn pass_allowed(m: BackendView, flush: bool, pass: Result<Vec<Option<RawSegment>>, PassError>) -> bool {
    match pass {
        Ok(reads) => pass_admissible(m, flush, reads@),
        Err(_) => true,
    }
}

/// `res` is what the second step on a chunk gives, from the state `m` to the state `after`,
/// when the pass over the buffer had the outcome `pass`.
pub open spec fn passed(
    m: BackendView,
    after: BackendView,
    flush: bool,
    pass: Result<Vec<Option<RawSegment>>, PassError>,
    res: PassOutcome,
) -> bool {
    match pass {
        Err(e) => {
            &&& after == m
            &&& res.dropped == 0
            &&& res.result == Err::<Transcription, Error>(Error::Transcribe(e.message()))
        },
        Ok(reads) => {
            let (expected, failure) = after_pass(m, flush, reads@);
            &&& after == expected
            &&& res.dropped == m.buffered - expected.buffered
            &&& match (res.result, failure) {
                (Ok(t), None) => t@ == expected.transcription,
                (Err(e), Some(f)) => e == f,
                _ => false,
            }
        },
    }
}

/// What finishing needs of the outcome of the last pass: a segment count that fits a C `int`.
pub open spec fn final_pass_allowed(pass: Result<Vec<Option<RawSegment>>, PassError>) -> bool {
    pass matches Ok(reads) ==> reads@.len() <= i32::MAX
}

/// `res` is what finishing from the state `m` gives when the last pass had the outcome `pass`.
pub open spec fn finished(
    m: BackendView,
    pass: Result<Vec<Option<RawSegment>>, PassError>,
    res: Result<Transcription, Error>,
) -> bool {
    match pass {
        Err(PassError::NoSamples(_)) => res matches Ok(t) && t@ == marked_complete(m.transcription),
        Err(PassError::Failed(message)) => res == Err::<Transcription, Error>(
            Error::Transcribe(message),
        ),
        Ok(reads) => match (res, after_final_pass(m, reads@)) {
            (Ok(t), Ok(v)) => t@ == v,
            (Err(e), Err(f)) => e == f,
            _ => false,
        },
    }
}

/// A chunk without a pass keeps what was transcribed: the finalized segments, the text,
/// the segments being processed and completeness stay; past silences are only added to;
/// the end of the stream advances by the chunk, and the start of the buffer does not go
/// back.
pub proof fn lemma_chunk_keeps_transcription(m: BackendView, chunk_len: nat, vad_segments: i32)
    ensures
        ({
            let after = after_vad(m, chunk_len, vad_segments);
            &&& after.transcription.finalized == m.transcription.finalized
            &&& after.transcription.full_text == m.transcription.full_text
            &&& after.transcription.processing == m.transcription.processing
            &&& after.transcription.is_complete == m.transcription.is_complete
            &&& m.transcription.silences.is_prefix_of(after.transcription.silences)
            &&& stream_end(after) == stream_end(m) + chunk_len
            &&& m.time_offset <= after.time_offset
        }),
{
    let after = after_vad(m, chunk_len, vad_segments);
    assert(m.transcription.silences.is_prefix_of(m.transcription.silences)) by {
        assert(m.transcription.silences.subrange(0, m.transcription.silences.len() as int)
            =~= m.transcription.silences);
    }
    if !skips_chunk(m, vad_segments) && vad_segments > 0 && m.silence > 0 {
        if let Some(s) = m.transcription.current_silence {
            assert(m.transcription.silences.push(s).subrange(0, m.transcription.silences.len() as int)
                =~= m.transcription.silences);
        }
    }
}

/// Speech ends the silence: after a chunk in which voice activity detection found speech,
/// no silence is counted and none is going on, unless none had been counted before.
pub proof fn lemma_speech_ends_silence(m: BackendView, chunk_len: nat, vad_segments: i32)
    requires
        vad_segments > 0,
    ensures
        after_vad(m, chunk_len, vad_segments).silence == 0,
        m.silence > 0 ==> after_vad(m, chunk_len, vad_segments).transcription.current_silence is None,
        after_vad(m, chunk_len, vad_segments).buffered == m.buffered + chunk_len,
{
}

/// A silent chunk that is skipped lengthens the silence by the chunk, and a silence is then
/// going on; one that starts with this chunk ends where the stream now ends. The chunk
/// joins the buffer where audio is buffered, and otherwise moves the empty buffer past it.
pub proof fn lemma_silence_grows(m: BackendView, chunk_len: nat, vad_segments: i32)
    requires
        backend_wf(m),
        skips_chunk(m, vad_segments),
        stream_end(m) + chunk_len <= u64::MAX,
    ensures
        ({
            let after = after_vad(m, chunk_len, vad_segments);
            &&& after.silence == m.silence + chunk_len
            &&& after.transcription.current_silence is Some
            &&& m.transcription.current_silence is None
                ==> after.transcription.current_silence.unwrap().timestamp.end == stream_end(after)
            &&& after.buffered == if m.buffered == 0 { 0 } else { m.buffered + chunk_len }
            &&& after.time_offset == if m.buffered == 0 {
                m.time_offset + chunk_len
            } else {
                m.time_offset
            }
        }),
{
}

/// The failures that reading segments can end in.
pub open spec fn read_failure(e: Error) -> bool {
    e is Transcribe || e is SegmentParseFailed
}

/// Reading segments fails only by a segment that cannot be read.
proof fn lemma_read_failure_kind(reads: Seq<Option<RawSegment>>, offset: int, lo: int, hi: int)
    ensures
        read_segments(reads, offset, lo, hi).1 matches Some(e) ==> read_failure(e),
    decreases hi - lo,
{
    if hi > lo {
        lemma_read_failure_kind(reads, offset, lo, hi - 1);
    }
}

/// A pass keeps what was finalized: the finalized segments and the full text are only
/// extended, the past silences, the silence going on and completeness stay, and a failure
/// is a segment that could not be read.
pub proof fn lemma_pass_extends_transcription(
    m: BackendView,
    flush: bool,
    reads: Seq<Option<RawSegment>>,
)
    ensures
        ({
            let (after, failure) = after_pass(m, flush, reads);
            &&& m.transcription.finalized.is_prefix_of(after.transcription.finalized)
            &&& m.transcription.full_text.is_prefix_of(after.transcription.full_text)
            &&& after.transcription.silences == m.transcription.silences
            &&& after.transcription.current_silence == m.transcription.current_silence
            &&& after.transcription.is_complete == m.transcription.is_complete
            &&& failure matches Some(e) ==> read_failure(e)
        }),
{
    let n = reads.len() as int;
    let ps = partials_start(m, n, flush);
    let (finalized, failure) = read_segments(reads, m.time_offset as int, 0, ps);
    lemma_read_failure_kind(reads, m.time_offset as int, 0, ps);
    lemma_read_failure_kind(reads, m.time_offset as int, ps, n);
    assert((m.transcription.finalized + finalized).subrange(0, m.transcription.finalized.len() as int)
        =~= m.transcription.finalized);
    assert((m.transcription.full_text + texts_of(finalized)).subrange(
        0,
        m.transcription.full_text.len() as int,
    ) =~= m.transcription.full_text);
    assert(m.transcription.finalized.subrange(0, m.transcription.finalized.len() as int)
        =~= m.transcription.finalized);
    assert(m.transcription.full_text.subrange(0, m.transcription.full_text.len() as int)
        =~= m.transcription.full_text);
}

/// A pass moves audio out of the buffer only: the end of the stream stays, and the start
/// of the buffer advances by the samples dropped.
pub proof fn lemma_pass_keeps_stream_end(
    m: BackendView,
    flush: bool,
    reads: Seq<Option<RawSegment>>,
)
    requires
        pass_admissible(m, flush, reads),
    ensures
        ({
            let after = after_pass(m, flush, reads).0;
            &&& stream_end(after) == stream_end(m)
            &&& after.buffered <= m.buffered
            &&& after.time_offset == m.time_offset + (m.buffered - after.buffered)
        }),
{
}

/// A whole chunk, its first step and then its pass, keeps what was transcribed before: the
/// finalized segments, the full text and the past silences are only extended, and
/// completeness stays.
pub proof fn lemma_chunk_extends_transcription(
    m: BackendView,
    chunk_len: nat,
    vad_segments: i32,
    flush: bool,
    reads: Seq<Option<RawSegment>>,
)
    ensures
        ({
            let planned = after_vad(m, chunk_len, vad_segments);
            let after = after_pass(planned, flush, reads).0;
            &&& m.transcription.finalized.is_prefix_of(after.transcription.finalized)
            &&& m.transcription.full_text.is_prefix_of(after.transcription.full_text)
            &&& m.transcription.silences.is_prefix_of(after.transcription.silences)
            &&& after.transcription.is_complete == m.transcription.is_complete
        }),
{
    let planned = after_vad(m, chunk_len, vad_segments);
    lemma_chunk_keeps_transcription(m, chunk_len, vad_segments);
    lemma_pass_extends_transcription(planned, flush, reads);
    let after = after_pass(planned, flush, reads).0;
    assert(m.transcription.finalized =~= after.transcription.finalized.subrange(
        0,
        m.transcription.finalized.len() as int,
    ));
    assert(m.transcription.full_text =~= after.transcription.full_text.subrange(
        0,
        m.transcription.full_text.len() as int,
    ));
}

/// Every step keeps the full text the text of the finalized segments, one after another.
pub proof fn lemma_steps_keep_text_consistent(
    m: BackendView,
    chunk_len: nat,
    vad_segments: i32,
    flush: bool,
    reads: Seq<Option<RawSegment>>,
)
    requires
        text_consistent(m.transcription),
    ensures
        text_consistent(after_vad(m, chunk_len, vad_segments).transcription),
        text_consistent(after_pass(m, flush, reads).0.transcription),
        after_final_pass(m, reads) matches Ok(t) ==> text_consistent(t),
        text_consistent(marked_complete(m.transcription)),
{
    let n = reads.len() as int;
    let ps = partials_start(m, n, flush);
    let (finalized, _f) = read_segments(reads, m.time_offset as int, 0, ps);
    lemma_texts_of_concat(m.transcription.finalized, finalized);
    let (all, _g) = read_segments(reads, m.time_offset as int, 0, n);
    lemma_texts_of_concat(m.transcription.finalized, all);
}

/// `ts` lies within the first `end` samples of the stream.
pub open spec fn within(ts: Timestamp, end: int) -> bool {
    0 <= ts.start <= ts.end <= end
}

/// Every segment and silence of `t` lies within the first `end` samples of the stream.
pub open spec fn times_within(t: TranscriptionView, end: int) -> bool {
    &&& forall|i: int| 0 <= i < t.finalized.len() ==> within(#[trigger] t.finalized[i].timestamp, end)
    &&& forall|i: int| 0 <= i < t.processing.len() ==> within(#[trigger] t.processing[i].timestamp, end)
    &&& forall|i: int| 0 <= i < t.silences.len() ==> within(#[trigger] t.silences[i].timestamp, end)
    &&& t.current_silence matches Some(s) ==> within(s.timestamp, end)
}

/// The model placed every segment it returned within the `len` samples it was given.
pub open spec fn reads_within(reads: Seq<Option<RawSegment>>, len: int) -> bool {
    forall|i: int|
        0 <= i < reads.len() ==> (#[trigger] reads[i] matches Some(r) ==> 0 <= r.start <= r.end
            && samples_in_centiseconds(r.end as int) <= len)
}

/// Segments read from a pass that kept within `len` samples, placed at `offset`, lie within
/// the first `offset + len` samples of the stream.
proof fn lemma_read_segments_within(
    reads: Seq<Option<RawSegment>>,
    offset: int,
    len: int,
    lo: int,
    hi: int,
)
    requires
        0 <= offset,
        offset + len <= u64::MAX,
        reads_within(reads, len),
    ensures
        forall|k: int|
            0 <= k < read_segments(reads, offset, lo, hi).0.len() ==> within(
                #[trigger] read_segments(reads, offset, lo, hi).0[k].timestamp,
                offset + len,
            ),
    decreases hi - lo,
{
    if hi > lo {
        lemma_read_segments_within(reads, offset, len, lo, hi - 1);
        let (done, failure) = read_segments(reads, offset, lo, hi - 1);
        if failure is None {
            if let Ok(s) = segment_at(reads, offset, hi - 1) {
                let r = reads[hi - 1]->Some_0;
                assert(reads[hi - 1] matches Some(_));
                assert(0 <= r.start <= r.end);
                assert(samples_in_centiseconds(r.start as int) <= samples_in_centiseconds(r.end as int));
                let out = done.push(s);
                assert forall|k: int| 0 <= k < out.len() implies within(#[trigger] out[k].timestamp, offset + len) by {
                    if k < done.len() {
                        assert(out[k] == done[k]);
                    }
                }
            }
        }
    }
}

/// Timestamps stay within the audio seen so far: where every segment and silence lies within
/// the stream and the model keeps within the audio it is given, they still do after a
/// chunk's first step, after its pass, and after the last pass over the buffer.
/// chunk joining the buffer).
pub proof fn lemma_times_within_stream(
    m: BackendView,
    chunk_len: nat,
    vad_segments: i32,
    flush: bool,
    reads: Seq<Option<RawSegment>>,
)
    requires
        backend_wf(m),
        times_within(m.transcription, stream_end(m) as int),
    ensures
        stream_end(m) + chunk_len <= u64::MAX ==> times_within(
            after_vad(m, chunk_len, vad_segments).transcription,
            stream_end(after_vad(m, chunk_len, vad_segments)) as int,
        ),
        pass_admissible(m, flush, reads) && reads_within(reads, m.buffered as int) ==> times_within(
            after_pass(m, flush, reads).0.transcription,
            stream_end(after_pass(m, flush, reads).0) as int,
        ),
        reads_within(reads, m.buffered as int) ==> (after_final_pass(m, reads) matches Ok(t)
            ==> times_within(t, stream_end(m) as int)),
{
    let t = m.transcription;
    let e = stream_end(m) as int;
    if stream_end(m) + chunk_len <= u64::MAX {
        let after = after_vad(m, chunk_len, vad_segments);
        let e2 = stream_end(after) as int;
        assert(e2 == e + chunk_len);
        let t2 = after.transcription;
        assert(t2.finalized == t.finalized && t2.processing == t.processing);
        assert forall|i: int| 0 <= i < t2.silences.len() implies within(#[trigger] t2.silences[i].timestamp, e2) by {
            if i < t.silences.len() {
                assert(t2.silences[i] == t.silences[i]);
            }
        }
    }
    if pass_admissible(m, flush, reads) && reads_within(reads, m.buffered as int) {
        let n = reads.len() as int;
        let ps = partials_start(m, n, flush);
        let offset = m.time_offset as int;
        lemma_read_segments_within(reads, offset, m.buffered as int, 0, ps);
        lemma_read_segments_within(reads, offset, m.buffered as int, ps, n);
        let after = after_pass(m, flush, reads).0;
        let (finalized, _f) = read_segments(reads, offset, 0, ps);
        let t2 = after.transcription;
        if !(finalizes(m, n, flush) && !flush && drop_point(reads, ps) is None) {
            assert forall|i: int| 0 <= i < t2.finalized.len() implies within(#[trigger] t2.finalized[i].timestamp, e) by {
                if i < t.finalized.len() {
                    assert(t2.finalized[i] == t.finalized[i]);
                } else {
                    assert(t2.finalized[i] == finalized[i - t.finalized.len()]);
                }
            }
        }
    }
    if reads_within(reads, m.buffered as int) {
        let offset = m.time_offset as int;
        let n = reads.len() as int;
        lemma_read_segments_within(reads, offset, m.buffered as int, 0, n);
        let (finalized, failure) = read_segments(reads, offset, 0, n);
        if failure is None {
            let t2 = completed(with_finalized(t, finalized));
            assert forall|i: int| 0 <= i < t2.finalized.len() implies within(#[trigger] t2.finalized[i].timestamp, e) by {
                if i < t.finalized.len() {
                    assert(t2.finalized[i] == t.finalized[i]);
                } else {
                    assert(t2.finalized[i] == finalized[i - t.finalized.len()]);
                }
            }
        }
    }
}

/// A flush that succeeds empties the audio buffer and finalizes every segment of the pass:
/// no segment is left being processed.
pub proof fn lemma_flush_empties_buffer(m: BackendView, reads: Seq<Option<RawSegment>>)
    requires
        after_pass(m, true, reads).1 is None,
    ensures
        after_pass(m, true, reads).0.buffered == 0,
        after_pass(m, true, reads).0.transcription.processing.len() == 0,
        after_pass(m, true, reads).0.transcription.finalized.len() == m.transcription.finalized.len()
            + reads.len(),
{
    let n = reads.len() as int;
    lemma_read_segments_complete(reads, m.time_offset as int, 0, n);
}

/// Reading a range without failure yields one segment per index.
proof fn lemma_read_segments_complete(reads: Seq<Option<RawSegment>>, offset: int, lo: int, hi: int)
    requires
        lo <= hi,
        read_segments(reads, offset, lo, hi).1 is None,
    ensures
        read_segments(reads, offset, lo, hi).0.len() == hi - lo,
    decreases hi - lo,
{
    if hi > lo {
        let (done, failure) = read_segments(reads, offset, lo, hi - 1);
        if failure is Some {
            lemma_read_segments_stop(reads, offset, lo, hi - 1, hi);
        } else {
            lemma_read_segments_complete(reads, offset, lo, hi - 1);
        }
    }
}

/// Finishing completes the transcription: every segment of the last pass is finalized
/// after those finalized before, no segment is left being processed, and the full text is
/// extended by their text.
pub proof fn lemma_finish_completes(m: BackendView, reads: Seq<Option<RawSegment>>)
    requires
        after_final_pass(m, reads) is Ok,
    ensures
        ({
            let t = after_final_pass(m, reads)->Ok_0;
            &&& t.is_complete
            &&& t.processing.len() == 0
            &&& m.transcription.finalized.is_prefix_of(t.finalized)
            &&& t.finalized.len() == m.transcription.finalized.len() + reads.len()
            &&& t.full_text == m.transcription.full_text + texts_of(t.finalized.subrange(
                m.transcription.finalized.len() as int,
                t.finalized.len() as int,
            ))
        }),
{
    let (finalized, failure) = read_segments(reads, m.time_offset as int, 0, reads.len() as int);
    lemma_read_segments_complete(reads, m.time_offset as int, 0, reads.len() as int);
    let t = after_final_pass(m, reads)->Ok_0;
    assert(t.finalized.subrange(0, m.transcription.finalized.len() as int)
        =~= m.transcription.finalized);
    assert(t.finalized.subrange(m.transcription.finalized.len() as int, t.finalized.len() as int)
        =~= finalized);
}

/// `v` is the segment that the model reported as `r`, placed in the stream at `offset`
/// samples: the model's text, its tokens element by element and its probability, and its
/// start and end (in centiseconds of the audio it was given, 160 samples each) moved by
/// `offset`.
pub open spec fn placed_from(v: SegmentView, r: Option<RawSegment>, offset: int) -> bool {
    &&& r matches Some(raw)
    &&& raw.content matches Ok(c)
    &&& v.text == c.text@
    &&& v.tokens == c.tokens.deep_view()
    &&& v.probability_bits == c.probability_bits
    &&& v.timestamp.start == offset + 160 * raw.start
    &&& v.timestamp.end == offset + 160 * raw.end
}

/// Reading a range without failure reads every index of it, each segment placed from the
/// model's report at that index.
proof fn lemma_read_segments_placed(
    reads: Seq<Option<RawSegment>>,
    offset: int,
    lo: int,
    hi: int,
)
    requires
        lo <= hi,
        0 <= offset <= u64::MAX,
        read_segments(reads, offset, lo, hi).1 is None,
    ensures
        read_segments(reads, offset, lo, hi).0.len() == hi - lo,
        hi > lo ==> 0 <= lo && hi <= reads.len(),
        forall|k: int|
            0 <= k < hi - lo ==> placed_from(
                #[trigger] read_segments(reads, offset, lo, hi).0[k],
                reads[lo + k],
                offset,
            ),
    decreases hi - lo,
{
    if hi > lo {
        let (done, failure) = read_segments(reads, offset, lo, hi - 1);
        if failure is Some {
            lemma_read_segments_stop(reads, offset, lo, hi - 1, hi);
        } else {
            lemma_read_segments_placed(reads, offset, lo, hi - 1);
            let s = segment_at(reads, offset, hi - 1)->Ok_0;
            let raw = reads[hi - 1]->Some_0;
            assert(samples_in_centiseconds(raw.start as int) == 160 * raw.start) by (nonlinear_arith);
            assert(samples_in_centiseconds(raw.end as int) == 160 * raw.end) by (nonlinear_arith);
            assert(placed_from(s, reads[hi - 1], offset));
            let out = done.push(s);
            assert forall|k: int| 0 <= k < hi - lo implies placed_from(
                #[trigger] out[k],
                reads[lo + k],
                offset,
            ) by {
                if k < hi - 1 - lo {
                    assert(out[k] == done[k]);
                }
            }
        }
    }
}

/// The last pass places each of its segments at the start of the buffer in the stream: the
/// `i`-th segment it reports becomes the finalized segment after those finalized before,
/// at `time_offset` plus its own time, with the model's text and tokens. No segment is
/// left being processed, the past silences and the silence going on stay, and the
/// transcription is complete.
pub proof fn lemma_final_pass_places_segments(m: BackendView, reads: Seq<Option<RawSegment>>)
    requires
        backend_wf(m),
        after_final_pass(m, reads) is Ok,
    ensures
        ({
            let t = after_final_pass(m, reads)->Ok_0;
            let before = m.transcription.finalized.len();
            &&& t.finalized.len() == before + reads.len()
            &&& forall|i: int| 0 <= i < before ==> t.finalized[i] == m.transcription.finalized[i]
            &&& forall|i: int|
                0 <= i < reads.len() ==> placed_from(
                    #[trigger] t.finalized[before + i],
                    reads[i],
                    m.time_offset as int,
                )
            &&& t.processing.len() == 0
            &&& t.silences == m.transcription.silences
            &&& t.current_silence == m.transcription.current_silence
            &&& t.is_complete
        }),
{
    let offset = m.time_offset as int;
    let n = reads.len() as int;
    lemma_read_segments_placed(reads, offset, 0, n);
    let (finalized, _f) = read_segments(reads, offset, 0, n);
    let t = after_final_pass(m, reads)->Ok_0;
    let before = m.transcription.finalized.len();
    assert forall|i: int| 0 <= i < reads.len() implies placed_from(
        #[trigger] t.finalized[before + i],
        reads[i],
        offset,
    ) by {
        assert(t.finalized[before + i] == finalized[i]);
        assert(placed_from(finalized[0 + i], reads[0 + i], offset));
    }
}

/// A pass that succeeds splits the segments the model reported: on a flush all of them are
/// finalized and the buffer is emptied; otherwise, where more than `segment_buffer` were
/// reported, all but the last `segment_buffer` are finalized, the last `segment_buffer` are
/// being processed, and the audio up to the end of the last finalized segment (160 samples
/// per centisecond, at most the whole buffer) leaves the buffer; where no more than
/// `segment_buffer` were reported, none is finalized, all are being processed and the
/// buffer stays. Every segment is placed at the start of the buffer before the pass plus
/// its own time, with the model's text and tokens; the full text grows by the text of the
/// newly finalized segments.
pub proof fn lemma_pass_splits_segments(m: BackendView, flush: bool, reads: Seq<Option<RawSegment>>)
    requires
        backend_wf(m),
        pass_admissible(m, flush, reads),
        after_pass(m, flush, reads).1 is None,
    ensures
        ({
            let after = after_pass(m, flush, reads).0;
            let n = reads.len() as int;
            let sb = m.config.segment_buffer as int;
            let before = m.transcription.finalized.len() as int;
            let split = if flush { n } else if n > sb { n - sb } else { 0 };
            let offset = m.time_offset as int;
            &&& 0 <= split <= n
            &&& after.transcription.finalized.len() == before + split
            &&& forall|i: int|
                0 <= i < before ==> after.transcription.finalized[i]
                    == m.transcription.finalized[i]
            &&& forall|i: int|
                0 <= i < split ==> placed_from(
                    #[trigger] after.transcription.finalized[before + i],
                    reads[i],
                    offset,
                )
            &&& after.transcription.processing.len() == n - split
            &&& forall|j: int|
                0 <= j < n - split ==> placed_from(
                    #[trigger] after.transcription.processing[j],
                    reads[split + j],
                    offset,
                )
            &&& after.transcription.full_text == m.transcription.full_text + texts_of(
                after.transcription.finalized.subrange(before, before + split),
            )
            &&& flush ==> after.buffered == 0
            &&& (!flush && n <= sb) ==> after.buffered == m.buffered
            &&& (!flush && n > sb) ==> {
                let end = 160 * reads[n - sb - 1]->Some_0.end;
                after.buffered == m.buffered - if end < m.buffered { end } else { m.buffered as int }
            }
            &&& after.time_offset == m.time_offset + (m.buffered - after.buffered)
            &&& after.transcription.silences == m.transcription.silences
        }),
{
    let n = reads.len() as int;
    let ps = partials_start(m, n, flush);
    let offset = m.time_offset as int;
    let (finalized, failure) = read_segments(reads, offset, 0, ps);
    if failure is Some {
        assert(after_pass(m, flush, reads).1 == failure);
    }
    assert(failure is None);
    lemma_read_segments_placed(reads, offset, 0, ps);
    let (processing, failure2) = read_segments(reads, offset, ps, n);
    if ps <= n {
        lemma_read_segments_placed(reads, offset, ps, n);
    }
    let after = after_pass(m, flush, reads).0;
    let before = m.transcription.finalized.len() as int;
    assert(after.transcription.finalized =~= m.transcription.finalized + finalized);
    assert(after.transcription.finalized.subrange(before, before + ps) =~= finalized);
    assert forall|i: int| 0 <= i < ps implies placed_from(
        #[trigger] after.transcription.finalized[before + i],
        reads[i],
        offset,
    ) by {
        assert(after.transcription.finalized[before + i] == finalized[i]);
        assert(placed_from(finalized[0 + i], reads[0 + i], offset));
    }
    if !flush && n > m.config.segment_buffer {
        let raw = reads[ps - 1]->Some_0;
        assert(samples_in_centiseconds(raw.end as int) == 160 * raw.end) by (nonlinear_arith);
    }
}

/// Past silences grow only when speech ends a silence, and then by exactly the silence that
/// was going on, which ends no later than the audio before the speech; a skipped silent
/// chunk leaves them as they are and stretches the silence going on by the chunk, or starts
/// one that ends at the new end of the stream and reaches back over the silence counted.
pub proof fn lemma_past_silences(m: BackendView, chunk_len: nat, vad_segments: i32)
    requires
        backend_wf(m),
        stream_end(m) + chunk_len <= u64::MAX,
    ensures
        ({
            let after = after_vad(m, chunk_len, vad_segments);
            let ends_silence = vad_segments > 0 && m.silence > 0;
            &&& after.transcription.silences == if ends_silence
                && m.transcription.current_silence is Some {
                m.transcription.silences.push(m.transcription.current_silence->Some_0)
            } else {
                m.transcription.silences
            }
            &&& (ends_silence && m.transcription.current_silence is Some)
                ==> m.transcription.current_silence->Some_0.timestamp.end <= stream_end(m)
            &&& ends_silence ==> after.transcription.current_silence is None && after.silence == 0
            &&& skips_chunk(m, vad_segments) ==> {
                &&& after.silence == m.silence + chunk_len
                &&& stream_end(after) == stream_end(m) + chunk_len
                &&& after.transcription.current_silence matches Some(c)
                &&& match m.transcription.current_silence {
                    Some(s) => c.timestamp.start == s.timestamp.start && c.timestamp.end
                        == s.timestamp.end + chunk_len,
                    None => c.timestamp.end == stream_end(m) + chunk_len && c.timestamp.start
                        == stream_end(m) + chunk_len - (m.silence + chunk_len),
                }
            }
        }),
{
}

/// Reads the segment at `idx` of a pass, placed in the stream at `time_offset` samples.
fn read_segment(reads: &Vec<Option<RawSegment>>, idx: i32, time_offset: u64) -> (res: Result<Segment, Error>)
    ensures
        match (res, segment_at(reads@, time_offset as int, idx as int)) {
            (Ok(s), Ok(v)) => s.deep_view() == v,
            (Err(e), Err(f)) => e == f,
            _ => false,
        },
{
    if idx < 0 || idx as usize >= reads.len() {
        return Err(Error::SegmentParseFailed);
    }
    let raw = match &reads[idx as usize] {
        Some(raw) => raw,
        None => {
            return Err(Error::SegmentParseFailed);
        },
    };
    match &raw.content {
        Ok(content) => {
            let start = time_offset as i128 + raw.start as i128 * 160;
            let end = time_offset as i128 + raw.end as i128 * 160;
            let mut tokens: Vec<Token> = Vec::new();
            let mut i: usize = 0;
            while i < content.tokens.len()
                invariant
                    i <= content.tokens@.len(),
                    tokens.deep_view() =~= content.tokens.deep_view().subrange(0, i as int),
                decreases content.tokens.len() - i,
            {
                let ghost before = tokens.deep_view();
                tokens.push(content.tokens[i].clone());
                assert(tokens.deep_view() =~= before.push(content.tokens.deep_view()[i as int]));
                i = i + 1;
            }
            assert(tokens.deep_view() =~= content.tokens.deep_view());
            Ok(
                Segment {
                    text: content.text.clone(),
                    tokens,
                    probability_bits: content.probability_bits,
                    timestamp: Timestamp { start, end },
                },
            )
        },
        Err(message) => Err(Error::Transcribe(message.clone())),
    }
}

impl WhisperBackend {
    /// The state is well formed (see `backend_wf`).
    pub open spec fn wf(&self) -> bool {
        backend_wf(self@)
    }

    /// A backend at the start of a stream: nothing heard, nothing buffered, nothing
    /// transcribed.
    pub fn new(config: Config) -> (res: Self)
        ensures
            res@ == (BackendView {
                time_offset: 0,
                buffered: 0,
                silence: 0,
                transcription: empty_transcription(),
                config,
            }),
            res.wf(),
    {
        let res = WhisperBackend {
            time_offset: 0,
            buffered: 0,
            silence: 0,
            state: Transcription::default(),
            config,
        };
        assert(texts_of(Seq::<SegmentView>::empty()) =~= Seq::<char>::empty());
        res
    }

    /// The transcription so far.
    pub fn transcription(&self) -> (res: &Transcription)
        ensures
            res@ == self@.transcription,
    {
        &self.state
    }

    /// The position in the stream, in samples, of the start of the audio buffer.
    pub fn time_offset(&self) -> (res: u64)
        ensures
            res == self@.time_offset,
    {
        self.time_offset
    }

    /// The number of samples in the audio buffer.
    pub fn buffered(&self) -> (res: usize)
        ensures
            res == self@.buffered,
    {
        self.buffered
    }

    /// How long the current silence has lasted, in samples.
    pub fn silence(&self) -> (res: u64)
        ensures
            res == self@.silence,
    {
        self.silence
    }

    /// The configuration the backend was made with.
    pub fn config(&self) -> (res: &Config)
        ensures
            *res == self@.config,
    {
        &self.config
    }

    /// Counts a silent chunk of `n_samples` samples that is not transcribed: it joins the
    /// buffer where audio is buffered, and is dropped otherwise.
    fn add_silence(&mut self, n_samples: usize)
        requires
            old(self).wf(),
            stream_end(old(self)@) + n_samples <= u64::MAX,
            old(self)@.buffered + n_samples <= usize::MAX,
        ensures
            final(self)@ == after_silence(old(self)@, n_samples as nat),
            final(self).wf(),
    {
        let n = n_samples as u64;
        let end = self.time_offset + self.buffered as u64 + n;
        self.silence = self.silence + n;
        let current = match self.state.current_silence {
            Some(s) => Silence {
                timestamp: Timestamp { start: s.timestamp.start, end: s.timestamp.end + n as i128 },
            },
            None => Silence {
                timestamp: Timestamp { start: (end - self.silence) as i128, end: end as i128 },
            },
        };
        self.state.current_silence = Some(current);
        if self.buffered == 0 {
            self.time_offset = self.time_offset + n;
        } else {
            self.buffered = self.buffered + n_samples;
        }
        assert(self@ =~= after_silence(old(self)@, n_samples as nat));
    }

    /// Moves a silence that has lasted to the past silences and restarts the silence count.
    fn clear_silence(&mut self)
        requires
            old(self).wf(),
        ensures
            final(self)@ == after_speech(old(self)@),
            final(self).wf(),
    {
        if self.silence > 0 {
            if let Some(silence) = self.state.current_silence {
                self.state.silences.push(silence);
            }
            self.state.current_silence = None;
            self.silence = 0;
        }
        assert(self@ =~= after_speech(old(self)@));
    }

    /// Removes the first `n` samples from the audio buffer, or all of them where there are
    /// fewer, and advances the stream position by as many. Returns how many were removed.
    fn drop_samples_from_buffer(&mut self, n: usize) -> (res: usize)
        requires
            old(self).wf(),
        ensures
            res == if n < old(self)@.buffered { n as nat } else { old(self)@.buffered },
            final(self)@ == (BackendView {
                time_offset: (old(self)@.time_offset + res) as nat,
                buffered: (old(self)@.buffered - res) as nat,
                ..old(self)@
            }),
            final(self).wf(),
    {
        let dropped = if n < self.buffered {
            n
        } else {
            self.buffered
        };
        self.buffered = self.buffered - dropped;
        self.time_offset = self.time_offset + dropped as u64;
        dropped
    }

    /// Adds a last chunk of `chunk_len` samples to the audio buffer, to be transcribed by
    /// the last pass.
    pub fn append_chunk(&mut self, chunk_len: usize)
        requires
            old(self).wf(),
            stream_end(old(self)@) + chunk_len <= u64::MAX,
            old(self)@.buffered + chunk_len <= usize::MAX,
        ensures
            final(self)@ == with_buffered(old(self)@, chunk_len as nat),
            final(self).wf(),
    {
        self.buffered = self.buffered + chunk_len;
        assert(self@ =~= with_buffered(old(self)@, chunk_len as nat));
    }

    /// Takes the first step on an audio chunk of `chunk_len` samples, given the outcome of
    /// voice activity detection on it (its segment count, or the message of its error).
    /// Without speech, while nothing is buffered or the silence is shorter than
    /// `FLUSH_SILENCE`, the chunk counts as silence and is skipped (kept in the buffer when
    /// audio is buffered). Otherwise the chunk joins the buffer and the buffer is to be
    /// transcribed; speech ends the current silence, and no speech flushes the buffer.
    pub fn plan_chunk(&mut self, chunk_len: usize, vad: Result<i32, String>) -> (res: Result<
        ChunkPlan,
        Error,
    >)
        requires
            old(self).wf(),
            stream_end(old(self)@) + chunk_len <= u64::MAX,
            old(self)@.buffered + chunk_len <= usize::MAX,
        ensures
            final(self).wf(),
            planned(old(self)@, final(self)@, chunk_len as nat, vad, res),
            res matches Ok(ChunkPlan::Skip { transcription, .. }) ==> text_consistent(
                transcription@,
            ),
    {
        let vad_segments = match vad {
            Err(message) => {
                return Err(Error::Vad(message));
            },
            Ok(v) => v,
        };
        if vad_segments <= 0 {
            if self.buffered == 0 || self.silence < FLUSH_SILENCE {
                let keep_audio = self.buffered != 0;
                self.add_silence(chunk_len);
                return Ok(ChunkPlan::Skip { keep_audio, transcription: self.state.clone() });
            }
        } else {
            self.clear_silence();
        }
        let flush = vad_segments == 0;
        self.buffered = self.buffered + chunk_len;
        proof {
            if vad_segments > 0 {
                assert(self@ =~= with_buffered(after_speech(old(self)@), chunk_len as nat));
            } else {
                assert(self@ =~= with_buffered(old(self)@, chunk_len as nat));
            }
        }
        Ok(ChunkPlan::Transcribe { flush })
    }

    /// Appends the segments `lo..hi` of a pass to the finalized segments (`finalize`) or to
    /// the segments being processed, placing them at `time_offset`, and stops at the first
    /// segment that cannot be read.
    fn push_segments(
        &mut self,
        reads: &Vec<Option<RawSegment>>,
        lo: i32,
        hi: i32,
        time_offset: u64,
        finalize: bool,
    ) -> (res: Option<Error>)
        requires
            old(self).wf(),
            0 <= lo <= hi,
        ensures
            ({
                let (segments, failure) = read_segments(reads@, time_offset as int, lo as int, hi as int);
                &&& res == failure
                &&& final(self)@ == (BackendView {
                    transcription: if finalize {
                        with_finalized(old(self)@.transcription, segments)
                    } else {
                        with_processing(
                            old(self)@.transcription,
                            old(self)@.transcription.processing + segments,
                        )
                    },
                    ..old(self)@
                })
            }),
    {
        let ghost mut done: Seq<SegmentView> = Seq::empty();
        let mut idx: i32 = lo;
        while idx < hi
            invariant
                lo <= idx <= hi,
                read_segments(reads@, time_offset as int, lo as int, idx as int) == (
                    done,
                    None::<Error>,
                ),
                self@ == (BackendView {
                    transcription: if finalize {
                        with_finalized(old(self)@.transcription, done)
                    } else {
                        with_processing(
                            old(self)@.transcription,
                            old(self)@.transcription.processing + done,
                        )
                    },
                    ..old(self)@
                }),
            decreases hi - idx,
        {
            match read_segment(reads, idx, time_offset) {
                Ok(segment) => {
                    let ghost v = segment.deep_view();
                    let ghost before = self.state@;
                    if finalize {
                        self.state.full_text.append(segment.text.as_str());
                        self.state.finalized.push(segment);
                        proof {
                            assert(self.state.finalized.deep_view() =~= before.finalized.push(v));
                            assert(old(self)@.transcription.finalized + done.push(v) =~= (
                            old(self)@.transcription.finalized + done).push(v));
                            assert(texts_of(done.push(v)) == texts_of(done) + v.text) by {
                                assert(done.push(v).drop_last() =~= done);
                            }
                            assert(old(self)@.transcription.full_text + texts_of(done.push(v))
                                =~= old(self)@.transcription.full_text + texts_of(done) + v.text);
                        }
                    } else {
                        self.state.processing.push(segment);
                        proof {
                            assert(self.state.processing.deep_view() =~= before.processing.push(v));
                            assert(old(self)@.transcription.processing + done.push(v) =~= (
                            old(self)@.transcription.processing + done).push(v));
                        }
                    }
                    proof {
                        done = done.push(v);
                    }
                    assert(self@ =~= (BackendView {
                        transcription: if finalize {
                            with_finalized(old(self)@.transcription, done)
                        } else {
                            with_processing(
                                old(self)@.transcription,
                                old(self)@.transcription.processing + done,
                            )
                        },
                        ..old(self)@
                    }));
                },
                Err(e) => {
                    proof {
                        lemma_read_segments_stop(
                            reads@,
                            time_offset as int,
                            lo as int,
                            idx as int + 1,
                            hi as int,
                        );
                    }
                    return Some(e);
                },
            }
            idx = idx + 1;
        }
        None
    }

    /// Takes the second step on an audio chunk, given the outcome of the speech model's pass
    /// over the audio buffer: the segments it found, or its error. Where more segments than
    /// `segment_buffer` were found, or on a flush, the leading segments are finalized and the
    /// audio they cover is dropped from the buffer (all of it on a flush); the remaining
    /// segments become the segments being processed. Segments are placed in the stream by
    /// the position of the buffer before the pass.
    pub fn apply_pass(&mut self, flush: bool, pass: Result<Vec<Option<RawSegment>>, PassError>) -> (res:
        PassOutcome)
        requires
            old(self).wf(),
            pass_allowed(old(self)@, flush, pass),
        ensures
            final(self).wf(),
            passed(old(self)@, final(self)@, flush, pass, res),
            res.result matches Ok(t) ==> text_consistent(t@),
    {
        let reads = match pass {
            Err(e) => {
                let message = match e {
                    PassError::NoSamples(m) => m,
                    PassError::Failed(m) => m,
                };
                return PassOutcome { dropped: 0, result: Err(Error::Transcribe(message)) };
            },
            Ok(r) => r,
        };
        let ghost m = old(self)@;
        let n = reads.len() as i32;
        let segment_buffer = self.config.segment_buffer;
        let time_offset = self.time_offset;
        let mut split: i32 = 0;
        let mut dropped: usize = 0;
        if n > segment_buffer || flush {
            split = if flush {
                n
            } else {
                n - segment_buffer
            };
            if flush {
                let all = self.buffered;
                dropped = self.drop_samples_from_buffer(all);
            } else {
                let idx = split - 1;
                if idx < 0 || idx >= n {
                    return PassOutcome { dropped: 0, result: Err(Error::SegmentParseFailed) };
                }
                let end = match &reads[idx as usize] {
                    Some(raw) => raw.end,
                    None => {
                        return PassOutcome { dropped: 0, result: Err(Error::SegmentParseFailed) };
                    },
                };
                let sample_end = centiseconds_to_samples(end);
                dropped = self.drop_samples_from_buffer(sample_end);
            }
        }
        assert(split == partials_start(m, n as int, flush));
        assert(dropped == dropped_by(m, flush, reads@));
        let ghost mid = self@;
        let failure = self.push_segments(&reads, 0, split, time_offset, true);
        let ghost (finalized, _f) = read_segments(reads@, time_offset as int, 0, split as int);
        proof {
            lemma_texts_of_concat(m.transcription.finalized, finalized);
        }
        if let Some(e) = failure {
            assert(self@ =~= after_pass(m, flush, reads@).0);
            return PassOutcome { dropped, result: Err(e) };
        }
        self.state.processing.clear();
        let ghost cleared = self@;
        let failure = self.push_segments(&reads, split, n, time_offset, false);
        let ghost (processing, _g) = read_segments(reads@, time_offset as int, split as int, n as int);
        assert(cleared.transcription.processing + processing =~= processing);
        assert(self@ =~= after_pass(m, flush, reads@).0);
        if let Some(e) = failure {
            return PassOutcome { dropped, result: Err(e) };
        }
        PassOutcome { dropped, result: Ok(self.state.clone()) }
    }

    /// Finishes the transcription, given the outcome of the speech model's last pass over
    /// the audio buffer. All segments of the last pass are finalized, in place of the
    /// segments being processed, and the transcription is marked complete. A pass that had
    /// no audio finalizes nothing more and keeps the segments being processed; any other
    /// failure of the pass is a transcription error.
    pub fn finish_transcribing(self, pass: Result<Vec<Option<RawSegment>>, PassError>) -> (res: Result<
        Transcription,
        Error,
    >)
        requires
            self.wf(),
            final_pass_allowed(pass),
        ensures
            finished(self@, pass, res),
            res matches Ok(t) ==> text_consistent(t@),
    {
        let reads = match pass {
            Err(PassError::NoSamples(_)) => {
                let mut state = self.state;
                state.is_complete = true;
                assert(state@ =~= marked_complete(self@.transcription));
                return Ok(state);
            },
            Err(PassError::Failed(message)) => {
                return Err(Error::Transcribe(message));
            },
            Ok(r) => r,
        };
        let mut backend = self;
        let ghost m = backend@;
        let n = reads.len() as i32;
        let time_offset = backend.time_offset;
        let failure = backend.push_segments(&reads, 0, n, time_offset, true);
        let ghost (finalized, _f) = read_segments(reads@, time_offset as int, 0, n as int);
        proof {
            lemma_texts_of_concat(m.transcription.finalized, finalized);
        }
        if let Some(e) = failure {
            return Err(e);
        }
        backend.state.processing.clear();
        backend.state.is_complete = true;
        assert(backend.state@ =~= completed(with_finalized(m.transcription, finalized)));
        Ok(backend.state)
    }
}

} // verus!
