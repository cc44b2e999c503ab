use diarization::engine::{
    diarization_ready, diarize_step, download_needed, load_needed, model_file_is_complete,
    model_info, model_status, progress_report_due, DiarizationEngineError, DiarizationModelStatus,
    DiarizeStep, StreamingPreset, NEMOTRON_MODEL_FILENAME, NEMOTRON_MODEL_NAME,
};
use diarization::engine::{preprocessor_source, PreprocessorSource};
use diarization::loopback::process_loopback_activation_params;
use diarization::settings::{
    effective_max_speakers, enabled_by_default, get_models_directory, parse_streaming_preset,
    preset_from_lowercase, record_models_directory,
};
use std::path::PathBuf;

#[test]
fn preset_default_is_offline() {
    assert_eq!(StreamingPreset::default(), StreamingPreset::Offline);
}

#[test]
fn model_file_completeness() {
    assert!(!model_file_is_complete(false, Some(400_000_000)));
    assert!(!model_file_is_complete(true, None));
    assert!(!model_file_is_complete(true, Some(300_000_000)));
    assert!(model_file_is_complete(true, Some(300_000_001)));
}

#[test]
fn status_prefers_download() {
    assert!(matches!(model_status(true, true), DiarizationModelStatus::Downloading { progress: 0 }));
    assert!(matches!(model_status(false, true), DiarizationModelStatus::Available));
    assert!(matches!(model_status(false, false), DiarizationModelStatus::Missing));
}

#[test]
fn info_describes_model() {
    let info = model_info(PathBuf::from("/m/nemotron3_diar_v3.onnx"), false, true);
    assert_eq!(info.name, NEMOTRON_MODEL_NAME);
    assert_eq!(info.filename, NEMOTRON_MODEL_FILENAME);
    assert_eq!(info.size_mb, 381);
    assert_eq!(info.max_speakers_supported, 8);
    assert_eq!(info.path, PathBuf::from("/m/nemotron3_diar_v3.onnx"));
    assert!(matches!(info.status, DiarizationModelStatus::Available));
}

#[test]
fn load_decisions() {
    assert!(matches!(load_needed(true, false), Ok(false)));
    assert!(matches!(load_needed(false, true), Ok(true)));
    assert!(matches!(load_needed(false, false), Err(DiarizationEngineError::ModelNotDownloaded)));
}

#[test]
fn diarize_decisions() {
    assert!(matches!(diarize_step(false, true, true), Err(DiarizationEngineError::DiarizationDisabled)));
    assert!(matches!(diarize_step(true, true, false), Ok(DiarizeStep::Run)));
    assert!(matches!(diarize_step(true, false, true), Ok(DiarizeStep::LoadThenRun)));
    assert!(matches!(diarize_step(true, false, false), Err(DiarizationEngineError::ModelNotDownloaded)));
}

#[test]
fn download_decisions() {
    assert!(matches!(download_needed(true, true), Ok(false)));
    assert!(matches!(download_needed(false, true), Err(DiarizationEngineError::ModelDownloading)));
    assert!(matches!(download_needed(false, false), Ok(true)));
    assert!(progress_report_due(150, 1, 2));
    assert!(progress_report_due(10, 2, 2));
    assert!(!progress_report_due(149, 1, 2));
}

#[test]
fn readiness() {
    assert!(diarization_ready(true, true, true));
    assert!(!diarization_ready(false, true, true));
    assert!(!diarization_ready(true, false, true));
    assert!(!diarization_ready(true, true, false));
}

#[test]
fn preset_names() {
    assert_eq!(parse_streaming_preset(Some("Low-Latency")), StreamingPreset::LowLatency);
    assert_eq!(parse_streaming_preset(Some("lowlatency")), StreamingPreset::LowLatency);
    assert_eq!(parse_streaming_preset(Some("very low latency")), StreamingPreset::VeryLowLatency);
    assert_eq!(parse_streaming_preset(Some("ULTRA_LOW_LATENCY")), StreamingPreset::UltraLowLatency);
    assert_eq!(parse_streaming_preset(Some("ultralowlatency")), StreamingPreset::UltraLowLatency);
    assert_eq!(parse_streaming_preset(Some("fast")), StreamingPreset::Offline);
    assert_eq!(parse_streaming_preset(None), StreamingPreset::Offline);
}

#[test]
fn speaker_limit_of_settings() {
    assert_eq!(effective_max_speakers(None, None), 4);
    assert_eq!(effective_max_speakers(Some(0), Some(5)), 1);
    assert_eq!(effective_max_speakers(None, Some(10)), 8);
    assert_eq!(effective_max_speakers(Some(3), Some(5)), 3);
}

#[test]
fn models_directory_is_copied() {
    assert_eq!(get_models_directory(&None), None);
    let dir = Some(PathBuf::from("/data/models"));
    assert_eq!(get_models_directory(&dir), dir);
}

#[test]
fn loopback_params() {
    let p = process_loopback_activation_params(4242);
    assert_eq!(p.ActivationType, 1);
    assert_eq!(p.ProcessLoopbackParams.TargetProcessId, 4242);
    assert_eq!(p.ProcessLoopbackParams.ProcessLoopbackMode, 0);
}

#[test]
fn preprocessor_location() {
    assert_eq!(preprocessor_source(true, &vec![true]), PreprocessorSource::InPlace);
    assert_eq!(preprocessor_source(false, &vec![false, true, true]), PreprocessorSource::CopyFrom(1));
    assert_eq!(preprocessor_source(false, &vec![false, false]), PreprocessorSource::Download);
    assert_eq!(preprocessor_source(false, &vec![]), PreprocessorSource::Download);
}

#[test]
fn preset_names_given_in_lowercase() {
    assert_eq!(preset_from_lowercase("low-latency"), StreamingPreset::LowLatency);
    assert_eq!(preset_from_lowercase("very low latency"), StreamingPreset::VeryLowLatency);
    assert_eq!(preset_from_lowercase("ultra_low_latency"), StreamingPreset::UltraLowLatency);
    assert_eq!(preset_from_lowercase("LOWLATENCY"), StreamingPreset::Offline);
    assert_eq!(preset_from_lowercase(""), StreamingPreset::Offline);
}

#[test]
fn models_directory_set_then_get() {
    let mut recorded: Option<PathBuf> = None;
    assert_eq!(get_models_directory(&recorded), None);
    record_models_directory(&mut recorded, PathBuf::from("/data/models"));
    assert_eq!(get_models_directory(&recorded), Some(PathBuf::from("/data/models")));
    record_models_directory(&mut recorded, PathBuf::from("/other/models"));
    assert_eq!(get_models_directory(&recorded), Some(PathBuf::from("/other/models")));
}

#[test]
fn diarization_enabled_only_with_model_file() {
    assert!(enabled_by_default(Some(true)));
    assert!(!enabled_by_default(Some(false)));
    assert!(!enabled_by_default(None));
}
