use vstd::prelude::*;
use vstd::string::StringExecFns;

verus! {

/// Declares `std::path::PathBuf`, carried opaquely in model information.
#[verifier::external_type_specification]
#[verifier::external_body]
pub struct ExPathBuf(std::path::PathBuf);

/// Declares `std::io::Error`, carried opaquely in engine errors.
#[verifier::external_type_specification]
#[verifier::external_body]
pub struct ExIoError(std::io::Error);

/// Registry name of the diarization model.
pub const NEMOTRON_MODEL_NAME: &'static str = "nemotron-3-diarization-v3";

/// File name of the diarization model.
pub const NEMOTRON_MODEL_FILENAME: &'static str = "nemotron3_diar_v3.onnx";

/// Expected size of the model file in bytes (about 382 MB).
pub const NEMOTRON_EXPECTED_BYTES: u64 = 400_506_656;

/// Where the model is downloaded from.
pub const NEMOTRON_DOWNLOAD_URL: &'static str =
    "https://huggingface.co/altunenes/parakeet-rs/resolve/main/nemotron-3-diarization/nemotron3_diar_v3.onnx";

/// A model file of at most this many bytes counts as incomplete.
pub const MODEL_MIN_COMPLETE_BYTES: u64 = 300_000_000;

/// Speakers the model can tell apart at once.
pub const MAX_SPEAKERS_SUPPORTED: usize = 8;

/// Latency preset of streaming diarization.
#[derive(Debug, Clone, Copy, PartialEq, Eq, Structural)]
pub enum StreamingPreset {
    Offline,
    LowLatency,
    VeryLowLatency,
    UltraLowLatency,
}

impl Default for StreamingPreset {
    fn default() -> (preset: Self)
        ensures
            preset == StreamingPreset::Offline,
    {
        StreamingPreset::Offline
    }
}

/// Whether the model is on disk, being fetched, or unusable.
#[derive(Debug, Clone)]
pub enum DiarizationModelStatus {
    Available,
    Missing,
    Downloading { progress: u8 },
    Error(String),
}

/// What the settings view shows about the diarization model.
#[derive(Debug)]
pub struct DiarizationModelInfo {
    pub name: String,
    pub filename: String,
    pub path: std::path::PathBuf,
    pub size_mb: u32,
    pub status: DiarizationModelStatus,
    pub description: String,
    pub architecture: String,
    pub max_speakers_supported: usize,
}

/// Why the engine refused or failed a request.
#[derive(Debug)]
pub enum DiarizationEngineError {
    ModelNotDownloaded,
    ModelNotLoaded,
    ModelDownloading,
    DiarizationDisabled,
    InferenceFailed(String),
    Io(std::io::Error),
    Download(String),
}

/// A model file is complete when it exists and its size, where it could be
/// read, exceeds 300 MB.
pub fn model_file_is_complete(exists: bool, size_bytes: Option<u64>) -> (complete: bool)
    ensures
        complete == (exists && match size_bytes {
            Some(n) => n > MODEL_MIN_COMPLETE_BYTES,
            None => false,
        }),
{
    if !exists {
        return false;
    }
    match size_bytes {
        Some(n) => n > MODEL_MIN_COMPLETE_BYTES,
        None => false,
    }
}

/// The model's status: a running download takes precedence over a model on
/// disk.
pub fn model_status(is_downloading: bool, available: bool) -> (status: DiarizationModelStatus)
    ensures
        is_downloading ==> status == (DiarizationModelStatus::Downloading { progress: 0 }),
        !is_downloading && available ==> status is Available,
        !is_downloading && !available ==> status is Missing,
{
    if is_downloading {
        DiarizationModelStatus::Downloading { progress: 0 }
    } else if available {
        DiarizationModelStatus::Available
    } else {
        DiarizationModelStatus::Missing
    }
}

/// Describes the model stored at `path`.
pub fn model_info(path: std::path::PathBuf, is_downloading: bool, available: bool) -> (info:
    DiarizationModelInfo)
    ensures
        info.name@ == NEMOTRON_MODEL_NAME@,
        info.filename@ == NEMOTRON_MODEL_FILENAME@,
        info.path == path,
        info.size_mb == NEMOTRON_EXPECTED_BYTES / 1048576u64,
        is_downloading ==> info.status == (DiarizationModelStatus::Downloading { progress: 0 }),
        !is_downloading && available ==> info.status is Available,
        !is_downloading && !available ==> info.status is Missing,
        info.description@
            == "NVIDIA Nemotron-3 Diarization (Sortformer v3) - Real-time 8-speaker attribution running 100% on-device"@,
        info.architecture@ == "31-layer RoPE Transformer (Sortformer v3)"@,
        info.max_speakers_supported == MAX_SPEAKERS_SUPPORTED,
{
    let size = NEMOTRON_EXPECTED_BYTES / (1024 * 1024);
    assert(size == 381);
    DiarizationModelInfo {
        name: String::from_str(NEMOTRON_MODEL_NAME),
        filename: String::from_str(NEMOTRON_MODEL_FILENAME),
        path,
        size_mb: size as u32,
        status: model_status(is_downloading, available),
        description: String::from_str(
            "NVIDIA Nemotron-3 Diarization (Sortformer v3) - Real-time 8-speaker attribution running 100% on-device",
        ),
        architecture: String::from_str("31-layer RoPE Transformer (Sortformer v3)"),
        max_speakers_supported: MAX_SPEAKERS_SUPPORTED,
    }
}

/// Whether loading must start: nothing to do when the model is loaded; a
/// model that is not on disk cannot be loaded.
pub fn load_needed(loaded: bool, available: bool) -> (r: Result<bool, DiarizationEngineError>)
    ensures
        loaded ==> r == Ok::<bool, DiarizationEngineError>(false),
        !loaded && !available ==> r matches Err(DiarizationEngineError::ModelNotDownloaded),
        !loaded && available ==> r == Ok::<bool, DiarizationEngineError>(true),
{
    if loaded {
        Ok(false)
    } else if !available {
        Err(DiarizationEngineError::ModelNotDownloaded)
    } else {
        Ok(true)
    }
}

/// The next step of a diarization request.
#[derive(Debug, Clone, Copy, PartialEq, Eq, Structural)]
pub enum DiarizeStep {
    /// The model is loaded: run it.
    Run,
    /// The model is on disk but not in memory: load it, then run it.
    LoadThenRun,
}

/// Decides how a diarization request proceeds: refused while diarization is
/// disabled, refused when the model is neither loaded nor on disk.
pub fn diarize_step(enabled: bool, loaded: bool, available: bool) -> (r: Result<
    DiarizeStep,
    DiarizationEngineError,
>)
    ensures
        !enabled ==> r matches Err(DiarizationEngineError::DiarizationDisabled),
        enabled && loaded ==> r == Ok::<DiarizeStep, DiarizationEngineError>(DiarizeStep::Run),
        enabled && !loaded && available ==> r == Ok::<DiarizeStep, DiarizationEngineError>(
            DiarizeStep::LoadThenRun,
        ),
        enabled && !loaded && !available ==> r matches Err(
            DiarizationEngineError::ModelNotDownloaded,
        ),
{
    if !enabled {
        Err(DiarizationEngineError::DiarizationDisabled)
    } else if loaded {
        Ok(DiarizeStep::Run)
    } else if available {
        Ok(DiarizeStep::LoadThenRun)
    } else {
        Err(DiarizationEngineError::ModelNotDownloaded)
    }
}

/// Whether a download must start: nothing to do when the model is already on
/// disk; refused while another download runs.
pub fn download_needed(available: bool, download_active: bool) -> (r: Result<
    bool,
    DiarizationEngineError,
>)
    ensures
        available ==> r == Ok::<bool, DiarizationEngineError>(false),
        !available && download_active ==> r matches Err(DiarizationEngineError::ModelDownloading),
        !available && !download_active ==> r == Ok::<bool, DiarizationEngineError>(true),
{
    if available {
        Ok(false)
    } else if download_active {
        Err(DiarizationEngineError::ModelDownloading)
    } else {
        Ok(true)
    }
}

/// Minimum time between two download progress reports.
pub const PROGRESS_INTERVAL_MILLIS: u128 = 150;

/// A progress report is due once the interval has passed since the last one,
/// and when the download is complete.
pub fn progress_report_due(millis_since_report: u128, downloaded: u64, total: u64) -> (due: bool)
    ensures
        due == (millis_since_report >= PROGRESS_INTERVAL_MILLIS || downloaded == total),
{
    millis_since_report >= PROGRESS_INTERVAL_MILLIS || downloaded == total
}

/// Diarization is ready when the engine exists, is enabled, and its model is
/// on disk.
pub fn diarization_ready(engine_initialized: bool, enabled: bool, available: bool) -> (ready: bool)
    ensures
        ready == (engine_initialized && enabled && available),
{
    engine_initialized && enabled && available
}

/// Where the mel-spectrogram preprocessor comes from.
#[derive(Debug, Clone, Copy, PartialEq, Eq, Structural)]
pub enum PreprocessorSource {
    /// It is already in the diarization models directory.
    InPlace,
    /// Copy it from the candidate location with this index.
    CopyFrom(usize),
    /// Fetch it over the network.
    Download,
}

/// Chooses where the preprocessor comes from: the models directory when it is
/// there, else the first candidate location (in the given order) where it
/// exists, else a download.
pub fn preprocessor_source(in_place: bool, candidate_exists: &Vec<bool>) -> (source:
    PreprocessorSource)
    ensures
        in_place ==> source == PreprocessorSource::InPlace,
        !in_place ==> match source {
            PreprocessorSource::CopyFrom(k) => k < candidate_exists@.len() && candidate_exists@[k as int]
                && forall|j: int| 0 <= j < k ==> !candidate_exists@[j],
            PreprocessorSource::Download => forall|j: int|
                0 <= j < candidate_exists@.len() ==> !candidate_exists@[j],
            PreprocessorSource::InPlace => false,
        },
{
    if in_place {
        return PreprocessorSource::InPlace;
    }
    let mut k: usize = 0;
    while k < candidate_exists.len()
        invariant
            !in_place,
            k <= candidate_exists@.len(),
            forall|j: int| 0 <= j < k ==> !candidate_exists@[j],
        decreases candidate_exists@.len() - k,
    {
        if candidate_exists[k] {
            return PreprocessorSource::CopyFrom(k);
        }
        k = k + 1;
    }
    PreprocessorSource::Download
}

} // verus!
