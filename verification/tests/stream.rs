use asr_rs::config::{BackendConfig, Config};
use asr_rs::error::Error;
use asr_rs::segment::{Line, Segment, Silence, Timestamp, Token, Transcription};
use asr_rs::whisper::{
    self, centiseconds_to_samples, ChunkPlan, PassError, RawSegment, SegmentContent, VadModel,
    WhisperBackend, WhisperModel,
};
use asr_rs::tui::{Key, Scroll, ViewControl};
use asr_rs::{Backend, StreamTranscriber};

fn stream(segment_buffer: i32) -> StreamTranscriber {
    let cfg = Config {
        backend: BackendConfig::Whisper(whisper::Config {
            model: WhisperModel::Tiny,
            vad: VadModel::Silero,
            model_dir: "m".to_string(),
            segment_buffer,
            auto_download_models: false,
        }),
    };
    StreamTranscriber::create(cfg, &vec![true, true]).unwrap().0
}

fn backend(s: &StreamTranscriber) -> &WhisperBackend {
    match s.backend() {
        Backend::Whisper(w) => w,
    }
}

fn raw(text: &str, start: i64, end: i64) -> Option<RawSegment> {
    Some(RawSegment {
        start,
        end,
        content: Ok(SegmentContent {
            text: text.to_string(),
            tokens: vec![Token { text: text.to_string(), probability_bits: 7 }],
            probability_bits: 9,
        }),
    })
}

fn broken(start: i64, end: i64) -> Option<RawSegment> {
    Some(RawSegment { start, end, content: Err("bad utf8".to_string()) })
}

#[test]
fn centiseconds_convert_to_samples() {
    assert_eq!(centiseconds_to_samples(0), 0);
    assert_eq!(centiseconds_to_samples(1), 160);
    assert_eq!(centiseconds_to_samples(150), 24000);
}

#[test]
fn timestamp_duration() {
    assert_eq!(Timestamp { start: 100, end: 350 }.duration(), 250);
}

#[test]
fn first_silent_chunk_starts_a_silence() {
    let mut s = stream(1);
    match s.plan_chunk(16000, Ok(0)).unwrap() {
        ChunkPlan::Skip { keep_audio, transcription } => {
            assert!(!keep_audio);
            let silence = transcription.current_silence.unwrap();
            assert_eq!(silence.timestamp.start, 0);
            assert_eq!(silence.timestamp.end, 16000);
        }
        _ => panic!("expected a skip"),
    }
    let w = backend(&s);
    assert_eq!(w.time_offset(), 16000);
    assert_eq!(w.silence(), 16000);
    assert_eq!(w.buffered(), 0);
    // A second silent chunk stretches the same silence.
    s.plan_chunk(8000, Ok(0)).unwrap();
    let silence = s.transcription().current_silence.unwrap();
    assert_eq!(silence.timestamp.start, 0);
    assert_eq!(silence.timestamp.end, 24000);
    assert_eq!(backend(&s).time_offset(), 24000);
}

#[test]
fn vad_error_is_reported_and_changes_nothing() {
    let mut s = stream(1);
    match s.plan_chunk(16000, Err("vad broke".to_string())) {
        Err(Error::Vad(m)) => assert_eq!(m, "vad broke"),
        _ => panic!("expected a vad error"),
    }
    assert_eq!(backend(&s).time_offset(), 0);
    assert!(s.transcription().current_silence.is_none());
}

#[test]
fn speech_ends_the_silence_and_is_transcribed() {
    let mut s = stream(1);
    s.plan_chunk(16000, Ok(0)).unwrap();
    match s.plan_chunk(16000, Ok(2)).unwrap() {
        ChunkPlan::Transcribe { flush } => assert!(!flush),
        _ => panic!("expected a pass"),
    }
    assert_eq!(s.transcription().silences.len(), 1);
    assert!(s.transcription().current_silence.is_none());
    assert_eq!(backend(&s).silence(), 0);
    assert_eq!(backend(&s).buffered(), 16000);

    // One segment with one buffered segment: nothing is finalized.
    let out = s.apply_pass(false, Ok(vec![raw(" hello", 0, 90)]));
    assert_eq!(out.dropped, 0);
    let t = out.result.unwrap();
    assert!(t.finalized.is_empty());
    assert_eq!(t.processing.len(), 1);
    assert_eq!(t.processing[0].text, " hello");
    assert_eq!(t.processing[0].timestamp.start, 16000);
    assert_eq!(t.processing[0].timestamp.end, 16000 + 90 * 160);
    assert_eq!(t.processing[0].tokens.len(), 1);
    assert_eq!(t.processing[0].probability_bits, 9);

    // More speech: two segments, the first is finalized and its audio dropped.
    match s.plan_chunk(16000, Ok(1)).unwrap() {
        ChunkPlan::Transcribe { flush } => assert!(!flush),
        _ => panic!("expected a pass"),
    }
    assert_eq!(backend(&s).buffered(), 32000);
    let out = s.apply_pass(false, Ok(vec![raw(" hello", 0, 150), raw(" world", 150, 190)]));
    assert_eq!(out.dropped, 24000);
    let t = out.result.unwrap();
    assert_eq!(t.finalized.len(), 1);
    assert_eq!(t.finalized[0].text, " hello");
    assert_eq!(t.finalized[0].timestamp.start, 16000);
    assert_eq!(t.finalized[0].timestamp.end, 16000 + 24000);
    assert_eq!(t.full_text, " hello");
    assert_eq!(t.processing.len(), 1);
    assert_eq!(t.processing[0].text, " world");
    assert_eq!(t.processing[0].timestamp.start, 16000 + 24000);
    assert_eq!(backend(&s).time_offset(), 40000);
    assert_eq!(backend(&s).buffered(), 8000);
}

#[test]
fn long_silence_flushes_the_buffer() {
    let mut s = stream(1);
    s.plan_chunk(16000, Ok(1)).unwrap();
    s.apply_pass(false, Ok(vec![raw(" a", 0, 50)])).result.unwrap();
    // Silence while audio is buffered: the chunks join the buffer.
    for _ in 0..3 {
        match s.plan_chunk(16000, Ok(0)).unwrap() {
            ChunkPlan::Skip { keep_audio, .. } => assert!(keep_audio),
            _ => panic!("expected a skip"),
        }
    }
    assert_eq!(backend(&s).silence(), 48000);
    assert_eq!(backend(&s).buffered(), 64000);
    // The silent audio stays in the buffer, which still starts at the start of the stream;
    // the silence is placed after the speech.
    assert_eq!(backend(&s).time_offset(), 0);
    let silence = s.transcription().current_silence.unwrap();
    assert_eq!(silence.timestamp.start, 16000);
    assert_eq!(silence.timestamp.end, 64000);
    match s.plan_chunk(16000, Ok(0)).unwrap() {
        ChunkPlan::Transcribe { flush } => assert!(flush),
        _ => panic!("expected a flush"),
    }
    let out = s.apply_pass(true, Ok(vec![raw(" a", 0, 50), raw(" b", 50, 80)]));
    assert_eq!(out.dropped, 80000);
    let t = out.result.unwrap();
    assert_eq!(t.finalized.len(), 2);
    assert_eq!(t.full_text, " a b");
    assert!(t.processing.is_empty());
    assert_eq!(backend(&s).buffered(), 0);
    assert_eq!(backend(&s).time_offset(), 80000);
}

#[test]
fn silence_after_speech_is_placed_after_it() {
    let mut s = stream(1);
    s.plan_chunk(16000, Ok(1)).unwrap();
    let t = s.apply_pass(false, Ok(vec![raw(" hi", 0, 100)])).result.unwrap();
    assert_eq!(t.processing[0].timestamp.start, 0);
    assert_eq!(t.processing[0].timestamp.end, 16000);
    match s.plan_chunk(16000, Ok(0)).unwrap() {
        ChunkPlan::Skip { keep_audio, transcription } => {
            assert!(keep_audio);
            let silence = transcription.current_silence.unwrap();
            assert_eq!(silence.timestamp.start, 16000);
            assert_eq!(silence.timestamp.end, 32000);
            assert_eq!(transcription.processing[0].timestamp.end, 16000);
        }
        _ => panic!("expected a skip"),
    }
    // Speech again: the pass covers all three seconds, which start at the stream's start.
    s.plan_chunk(16000, Ok(1)).unwrap();
    assert_eq!(backend(&s).time_offset(), 0);
    assert_eq!(backend(&s).buffered(), 48000);
    let t = s.apply_pass(false, Ok(vec![raw(" hi", 0, 100), raw(" again", 200, 300)])).result.unwrap();
    assert_eq!(t.finalized[0].timestamp.end, 16000);
    assert_eq!(t.processing[0].timestamp.start, 32000);
    assert_eq!(t.processing[0].timestamp.end, 48000);
    assert_eq!(backend(&s).time_offset() + backend(&s).buffered() as u64, 48000);
}

#[test]
fn segment_the_model_did_not_return_cannot_be_read() {
    let mut s = stream(1);
    s.plan_chunk(100, Ok(1)).unwrap();
    let out = s.apply_pass(false, Ok(vec![raw(" a", 0, 10), None]));
    // The first segment is finalized and its audio dropped; the second cannot be read.
    assert_eq!(out.dropped, 100);
    assert!(matches!(out.result, Err(Error::SegmentParseFailed)));
    assert_eq!(s.transcription().finalized.len(), 1);
    let mut s = stream(0);
    s.plan_chunk(100, Ok(1)).unwrap();
    let out = s.apply_pass(false, Ok(vec![None]));
    assert_eq!(out.dropped, 0);
    assert!(matches!(out.result, Err(Error::SegmentParseFailed)));
}

#[test]
fn failed_pass_is_a_transcription_error() {
    let mut s = stream(1);
    s.plan_chunk(100, Ok(1)).unwrap();
    let out = s.apply_pass(false, Err(PassError::Failed("encode".to_string())));
    assert_eq!(out.dropped, 0);
    match out.result {
        Err(Error::Transcribe(m)) => assert_eq!(m, "encode"),
        _ => panic!("expected a transcription error"),
    }
    assert_eq!(backend(&s).buffered(), 100);
}

#[test]
fn negative_segment_buffer_fails_to_find_a_segment() {
    let mut s = stream(-1);
    s.plan_chunk(100, Ok(1)).unwrap();
    let out = s.apply_pass(false, Ok(vec![raw(" a", 0, 10)]));
    assert_eq!(out.dropped, 0);
    assert!(matches!(out.result, Err(Error::SegmentParseFailed)));
    assert_eq!(backend(&s).buffered(), 100);
}

#[test]
fn unreadable_segment_stops_the_pass() {
    let mut s = stream(0);
    s.plan_chunk(32000, Ok(1)).unwrap();
    let out = s.apply_pass(false, Ok(vec![raw(" a", 0, 50), broken(50, 100)]));
    // The drop point is the end of the last segment, which can still be read.
    assert_eq!(out.dropped, 16000);
    match out.result {
        Err(Error::Transcribe(m)) => assert_eq!(m, "bad utf8"),
        _ => panic!("expected a transcription error"),
    }
    // The segment read before the failure is kept.
    assert_eq!(s.transcription().finalized.len(), 1);
    assert_eq!(s.transcription().full_text, " a");
}

#[test]
fn finish_without_audio_completes_the_transcription() {
    let mut s = stream(1);
    s.plan_chunk(100, Ok(0)).unwrap();
    let t = s.finish_transcribing(Err(PassError::NoSamples("empty".to_string()))).unwrap();
    assert!(t.is_complete);
    assert!(t.processing.is_empty());
    assert!(t.current_silence.is_some());
    let t = stream(1).finish_transcribing(Err(PassError::NoSamples("empty".to_string()))).unwrap();
    assert!(t.is_complete);
    assert!(t.finalized.is_empty());
}

#[test]
fn finish_on_an_empty_buffer_keeps_the_segments_being_processed() {
    let mut s = stream(1);
    s.plan_chunk(16000, Ok(1)).unwrap();
    // The first segment ends at the end of the buffer: all the audio is dropped while the
    // second segment is still being processed.
    let out = s.apply_pass(false, Ok(vec![raw(" one", 0, 100), raw(" two", 100, 100)]));
    assert_eq!(out.dropped, 16000);
    assert_eq!(backend(&s).buffered(), 0);
    let t = s.finish_transcribing(Err(PassError::NoSamples("empty".to_string()))).unwrap();
    assert!(t.is_complete);
    assert_eq!(t.finalized.len(), 1);
    assert_eq!(t.full_text, " one");
    assert_eq!(t.processing.len(), 1);
    assert_eq!(t.processing[0].text, " two");
}

#[test]
fn last_chunk_joins_the_buffer() {
    let mut s = stream(1);
    s.plan_chunk(16000, Ok(1)).unwrap();
    s.append_chunk(8000);
    assert_eq!(backend(&s).buffered(), 24000);
    assert_eq!(backend(&s).time_offset(), 0);
    let t = s.finish_transcribing(Ok(vec![raw(" end", 0, 150)])).unwrap();
    assert_eq!(t.finalized[0].timestamp.end, 24000);
}

#[test]
fn finish_finalizes_all_segments() {
    let mut s = stream(1);
    s.plan_chunk(16000, Ok(1)).unwrap();
    s.apply_pass(false, Ok(vec![raw(" one", 0, 100)])).result.unwrap();
    let t = s.finish_transcribing(Ok(vec![raw(" one", 0, 100), raw(" two", 100, 150)])).unwrap();
    assert!(t.is_complete);
    assert_eq!(t.finalized.len(), 2);
    assert_eq!(t.full_text, " one two");
    // The partial segment is replaced by its final copy.
    assert!(t.processing.is_empty());
    assert_eq!(t.finalized[1].timestamp.start, 100 * 160);
}

#[test]
fn finish_failure_is_a_transcription_error() {
    let s = stream(1);
    match s.finish_transcribing(Err(PassError::Failed("x".to_string()))) {
        Err(Error::Transcribe(m)) => assert_eq!(m, "x"),
        _ => panic!("expected a transcription error"),
    }
    let s = stream(1);
    assert!(matches!(
        s.finish_transcribing(Ok(vec![broken(0, 1)])),
        Err(Error::Transcribe(_))
    ));
}

fn seg(text: &str, start: i128, end: i128) -> Segment {
    Segment { text: text.to_string(), tokens: vec![], probability_bits: 0, timestamp: Timestamp { start, end } }
}

#[test]
fn lines_are_ordered_by_start_with_current_silence_last() {
    let t = Transcription {
        finalized: vec![seg("a", 10, 20), seg("b", 30, 40)],
        silences: vec![Silence { timestamp: Timestamp { start: 0, end: 10 } }, Silence { timestamp: Timestamp { start: 20, end: 30 } }],
        processing: vec![seg("c", 20, 25)],
        current_silence: Some(Silence { timestamp: Timestamp { start: 5, end: 50 } }),
        full_text: "ab".to_string(),
        is_complete: false,
    };
    let lines = t.lines();
    let texts: Vec<&str> = lines.iter().map(|l| l.text()).collect();
    // Lines that start together keep their order: the partial segment comes before the silence.
    assert_eq!(texts, vec!["[Silence]", "a", "c", "[Silence]", "b", "[Silence]"]);
    let starts: Vec<i128> = lines.iter().map(|l| l.timestamp().start).collect();
    assert_eq!(starts, vec![0, 10, 20, 20, 30, 5]);
    assert!(matches!(lines[2], Line::Partial(_)));
    assert!(matches!(lines[1], Line::Complete(_)));
}

#[test]
fn default_transcription_is_empty() {
    let t = Transcription::default();
    assert!(t.finalized.is_empty() && t.processing.is_empty() && t.silences.is_empty());
    assert!(t.current_silence.is_none());
    assert!(t.full_text.is_empty());
    assert!(!t.is_complete);
    assert!(t.lines().is_empty());
}

#[test]
fn keys_control_the_view() {
    let mut v = ViewControl::new();
    assert!(v.auto_scroll && !v.exit);
    assert_eq!(v.handle_key_event(Key::Up), Scroll::Up);
    assert!(!v.auto_scroll);
    assert_eq!(v.handle_key_event(Key::Char('a')), Scroll::Stay);
    assert!(v.auto_scroll);
    assert_eq!(v.handle_key_event(Key::Down), Scroll::Down);
    assert!(!v.auto_scroll);
    assert_eq!(v.handle_key_event(Key::Other), Scroll::Stay);
    assert!(!v.exit);
    assert_eq!(v.handle_key_event(Key::Char('x')), Scroll::Stay);
    assert!(!v.exit);
    assert_eq!(v.handle_key_event(Key::Char('q')), Scroll::Stay);
    assert!(v.exit);
}
