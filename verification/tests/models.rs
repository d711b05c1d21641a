use asr_rs::config::{BackendConfig, Config};
use asr_rs::error::Error;
use asr_rs::models::{resolve_models, ModelLocation};
use asr_rs::whisper::{self, VadModel, WhisperModel};
use asr_rs::Transcriber;

fn whisper_config(model: WhisperModel, dir: &str, auto: bool) -> BackendConfig {
    BackendConfig::Whisper(whisper::Config {
        model,
        vad: VadModel::Silero,
        model_dir: dir.to_string(),
        segment_buffer: 1,
        auto_download_models: auto,
    })
}

#[test]
fn default_config_uses_medium_model() {
    let cfg = whisper::Config::default();
    assert!(matches!(cfg.model, WhisperModel::Medium));
    assert!(matches!(cfg.vad, VadModel::Silero));
    assert_eq!(cfg.model_dir, "./models");
    assert_eq!(cfg.segment_buffer, 1);
    assert!(!cfg.auto_download_models);
}

#[test]
fn builtin_model_file_names() {
    let cases = [
        (WhisperModel::Small, "ggml-small.en.bin"),
        (WhisperModel::Tiny, "ggml-tiny.en.bin"),
        (WhisperModel::Base, "ggml-base.en.bin"),
        (WhisperModel::Medium, "ggml-medium.en.bin"),
        (WhisperModel::Large, "ggml-large-v3.bin"),
        (WhisperModel::Turbo, "ggml-large-v3-turbo.bin"),
    ];
    for (model, file) in cases {
        let info = model.model_info();
        assert_eq!(info.file_name, file);
        assert_eq!(info.model_type, "whisper");
        assert_eq!(info.base_url, "https://huggingface.co/ggerganov/whisper.cpp/resolve/main/");
    }
}

#[test]
fn custom_model_info_passes_through() {
    let model = WhisperModel::Custom { name: "my.bin".to_string(), base_url: "http://x/".to_string() };
    let info = model.model_info();
    assert_eq!(info.file_name, "my.bin");
    assert_eq!(info.model_type, "whisper");
    assert_eq!(info.base_url, "http://x/");
    let vad = VadModel::Custom { name: "v.bin".to_string(), base_url: "http://y/".to_string() };
    let info = vad.model_info();
    assert_eq!(info.file_name, "v.bin");
    assert_eq!(info.model_type, "custom");
    assert_eq!(info.base_url, "http://y/");
}

#[test]
fn silero_model_info() {
    let info = VadModel::Silero.model_info();
    assert_eq!(info.file_name, "ggml-silero-v6.2.0.bin");
    assert_eq!(info.model_type, "silero");
    assert_eq!(info.base_url, "https://huggingface.co/ggml-org/whisper-vad/resolve/main/");
}

#[test]
fn model_locations_join_paths_and_urls() {
    let cfg = whisper_config(WhisperModel::Medium, "./models", false);
    let locations = cfg.model_locations();
    assert_eq!(locations.len(), 2);
    assert_eq!(locations[0].path, "./models/whisper/ggml-medium.en.bin");
    assert_eq!(
        locations[0].url,
        "https://huggingface.co/ggerganov/whisper.cpp/resolve/main/ggml-medium.en.bin"
    );
    assert_eq!(locations[0].model_type, "whisper");
    assert_eq!(locations[1].path, "./models/silero/ggml-silero-v6.2.0.bin");
    assert_eq!(
        locations[1].url,
        "https://huggingface.co/ggml-org/whisper-vad/resolve/main/ggml-silero-v6.2.0.bin"
    );
}

#[test]
fn model_dir_with_trailing_separator() {
    let cfg = whisper_config(WhisperModel::Tiny, "/data/models/", false);
    let locations = cfg.model_locations();
    assert_eq!(locations[0].path, "/data/models/whisper/ggml-tiny.en.bin");
}

#[test]
fn custom_whisper_model_is_looked_up_under_whisper() {
    let model = WhisperModel::Custom { name: "my.bin".to_string(), base_url: "http://x/".to_string() };
    let cfg = whisper_config(model, "m", false);
    let locations = cfg.model_locations();
    assert_eq!(locations[0].path, "m/whisper/my.bin");
    assert_eq!(locations[0].url, "http://x/my.bin");
}

#[test]
fn download_models_skips_present_models() {
    let cfg = whisper_config(WhisperModel::Base, "m", false);
    assert!(cfg.download_models(&vec![true, true]).is_empty());
    let missing = cfg.download_models(&vec![true, false]);
    assert_eq!(missing.len(), 1);
    assert_eq!(missing[0].file_name, "ggml-silero-v6.2.0.bin");
    let missing = cfg.download_models(&vec![]);
    assert_eq!(missing.len(), 2);
    assert_eq!(missing[0].file_name, "ggml-base.en.bin");
    assert_eq!(missing[1].file_name, "ggml-silero-v6.2.0.bin");
}

#[test]
fn resolve_without_downloads_reports_first_missing_model() {
    let cfg = whisper_config(WhisperModel::Base, "m", false);
    match cfg.resolve_models(&vec![false, false]) {
        Err(Error::ModelNotFound { model, path, url }) => {
            assert_eq!(model, "whisper");
            assert_eq!(path, "m/whisper/ggml-base.en.bin");
            assert_eq!(url, "https://huggingface.co/ggerganov/whisper.cpp/resolve/main/ggml-base.en.bin");
        }
        _ => panic!("expected a missing model"),
    }
    match cfg.resolve_models(&vec![true, false]) {
        Err(Error::ModelNotFound { model, .. }) => assert_eq!(model, "silero"),
        _ => panic!("expected a missing model"),
    }
    assert!(cfg.resolve_models(&vec![true, true]).unwrap().is_empty());
}

#[test]
fn resolve_with_downloads_lists_missing_models() {
    let cfg = whisper_config(WhisperModel::Small, "m", true);
    let downloads = cfg.resolve_models(&vec![false, true]).unwrap();
    assert_eq!(downloads.len(), 1);
    assert_eq!(downloads[0].file_name, "ggml-small.en.bin");
}

#[test]
fn resolve_models_free_function() {
    let loc = |t: &str| ModelLocation {
        model_type: t.to_string(),
        file_name: format!("{t}.bin"),
        path: format!("d/{t}.bin"),
        url: format!("u/{t}.bin"),
    };
    let locations = vec![loc("a"), loc("b"), loc("c")];
    let res = resolve_models(&locations, &vec![true, false, false], true).unwrap();
    assert_eq!(res.len(), 2);
    assert_eq!(res[0].model_type, "b");
    assert_eq!(res[1].model_type, "c");
    match resolve_models(&locations, &vec![true, true], false) {
        Err(Error::ModelNotFound { model, path, url }) => {
            assert_eq!(model, "c");
            assert_eq!(path, "d/c.bin");
            assert_eq!(url, "u/c.bin");
        }
        _ => panic!("expected a missing model"),
    }
}

#[test]
fn transcriber_new_and_downloads() {
    let t = Transcriber::new(Config { backend: whisper_config(WhisperModel::Turbo, "x", false) }).unwrap();
    let d = t.download_models(&vec![false, true]);
    assert_eq!(d.len(), 1);
    assert_eq!(d[0].path, "x/whisper/ggml-large-v3-turbo.bin");
    assert!(t.create_stream(&vec![false, true]).is_err());
    let (stream, downloads) = t.create_stream(&vec![true, true]).unwrap();
    assert!(downloads.is_empty());
    assert!(stream.transcription().finalized.is_empty());
    assert!(!stream.transcription().is_complete);
}

#[test]
fn error_messages() {
    assert_eq!(
        Error::ModelNotFound { model: "whisper".into(), path: "p".into(), url: "u".into() }.message(),
        "whisper Model was not found at p. Download it from u"
    );
    assert_eq!(Error::Transcribe("boom".into()).message(), "Failed to transcribe audio: boom");
    assert_eq!(Error::Vad("v".into()).message(), "Failed to run vad on audio: v");
    assert_eq!(Error::BackendInit.message(), "Failed to initialize asr backend");
    assert_eq!(Error::SegmentParseFailed.message(), "Failed to get segment");
    assert_eq!(Error::Download("d".into()).message(), "Failed to download model: d");
    assert_eq!(Error::WorkerShutdown("w".into()).message(), "Worker has been shutdown: w");
    assert_eq!(
        Error::ModelInit { model: "VAD".into(), error: "bad".into() }.message(),
        "Failed to initialize VAD: bad"
    );
}
