use vstd::prelude::*;

use crate::engine::StreamingPreset;
use crate::frames::clamp_max_speakers;
use crate::text::{is_ascii_chars, is_ascii_lowercase_of, spec_to_lowercase, to_lowercase};
use vstd::string::StrSliceExecFns;

verus! {

/// Calls `<PathBuf as Clone>::clone`. Claimed: the copy equals the value cloned.
pub assume_specification[ <std::path::PathBuf as Clone>::clone ](p: &std::path::PathBuf) -> (copy: std::path::PathBuf)
    ensures
        copy == *p,
;

/// A preset name with dashes and spaces turned into underscores.
pub open spec fn normalize_preset_name(s: Seq<char>) -> Seq<char> {
    s.map_values(|c: char| if c == '-' || c == ' ' { '_' } else { c })
}

/// The preset a normalized, lowercase name selects; unknown names select
/// `Offline`.
pub open spec fn preset_for_name(n: Seq<char>) -> StreamingPreset {
    if n == "lowlatency"@ || n == "low_latency"@ {
        StreamingPreset::LowLatency
    } else if n == "verylowlatency"@ || n == "very_low_latency"@ {
        StreamingPreset::VeryLowLatency
    } else if n == "ultralowlatency"@ || n == "ultra_low_latency"@ {
        StreamingPreset::UltraLowLatency
    } else {
        StreamingPreset::Offline
    }
}

/// Each documented preset alias selects its preset once dashes and spaces read
/// as underscores: `lowlatency` and `low_latency` select `LowLatency`,
/// `verylowlatency` and `very_low_latency` select `VeryLowLatency`,
/// `ultralowlatency` and `ultra_low_latency` select `UltraLowLatency`, and
/// every other name selects `Offline`.
pub proof fn lemma_preset_aliases(name: Seq<char>)
    ensures
        normalize_preset_name(name) == "lowlatency"@ || normalize_preset_name(name)
            == "low_latency"@ ==> preset_for_name(normalize_preset_name(name))
            == StreamingPreset::LowLatency,
        normalize_preset_name(name) == "verylowlatency"@ || normalize_preset_name(name)
            == "very_low_latency"@ ==> preset_for_name(normalize_preset_name(name))
            == StreamingPreset::VeryLowLatency,
        normalize_preset_name(name) == "ultralowlatency"@ || normalize_preset_name(name)
            == "ultra_low_latency"@ ==> preset_for_name(normalize_preset_name(name))
            == StreamingPreset::UltraLowLatency,
        normalize_preset_name(name) != "lowlatency"@ && normalize_preset_name(name)
            != "low_latency"@ && normalize_preset_name(name) != "verylowlatency"@
            && normalize_preset_name(name) != "very_low_latency"@ && normalize_preset_name(name)
            != "ultralowlatency"@ && normalize_preset_name(name) != "ultra_low_latency"@
            ==> preset_for_name(normalize_preset_name(name)) == StreamingPreset::Offline,
{
    reveal_strlit("lowlatency");
    reveal_strlit("low_latency");
    reveal_strlit("verylowlatency");
    reveal_strlit("very_low_latency");
    reveal_strlit("ultralowlatency");
    reveal_strlit("ultra_low_latency");
    assert("lowlatency"@.len() == 10);
    assert("low_latency"@.len() == 11);
    assert("verylowlatency"@.len() == 14);
    assert("very_low_latency"@.len() == 16);
    assert("ultralowlatency"@.len() == 15);
    assert("ultra_low_latency"@.len() == 17);
}

/// Whether `s`, normalized, spells `target`.
fn normalized_equals(s: &str, target: &str) -> (eq: bool)
    ensures
        eq == (normalize_preset_name(s@) == target@),
{
    let n = s.unicode_len();
    let m = target.unicode_len();
    if n != m {
        assert(normalize_preset_name(s@).len() != target@.len());
        return false;
    }
    let mut i: usize = 0;
    while i < n
        invariant
            n == s@.len() == target@.len(),
            i <= n,
            forall|k: int| 0 <= k < i ==> normalize_preset_name(s@)[k] == target@[k],
        decreases n - i,
    {
        let c = s.get_char(i);
        let mapped = if c == '-' || c == ' ' {
            '_'
        } else {
            c
        };
        if mapped != target.get_char(i) {
            assert(normalize_preset_name(s@)[i as int] != target@[i as int]);
            return false;
        }
        i = i + 1;
    }
    assert(normalize_preset_name(s@) =~= target@);
    true
}

/// The streaming preset a lowercase preset name selects, once dashes and
/// spaces are read as underscores (see `preset_for_name`).
pub fn preset_from_lowercase(lower: &str) -> (parsed: StreamingPreset)
    ensures
        parsed == preset_for_name(normalize_preset_name(lower@)),
{
    if normalized_equals(lower, "lowlatency") || normalized_equals(lower, "low_latency") {
        StreamingPreset::LowLatency
    } else if normalized_equals(lower, "verylowlatency") || normalized_equals(
        lower,
        "very_low_latency",
    ) {
        StreamingPreset::VeryLowLatency
    } else if normalized_equals(lower, "ultralowlatency") || normalized_equals(
        lower,
        "ultra_low_latency",
    ) {
        StreamingPreset::UltraLowLatency
    } else {
        StreamingPreset::Offline
    }
}

/// The streaming preset a settings request names: the name is lowercased,
/// dashes and spaces become underscores, and the low-latency presets are
/// recognized with or without underscores; anything else, or no name, selects
/// `Offline`.
pub fn parse_streaming_preset(preset: Option<&str>) -> (parsed: StreamingPreset)
    ensures
        parsed == match preset {
            Some(p) => preset_for_name(normalize_preset_name(spec_to_lowercase(p@))),
            None => StreamingPreset::Offline,
        },
        match preset {
            Some(p) => is_ascii_chars(p@) ==> is_ascii_lowercase_of(spec_to_lowercase(p@), p@),
            None => true,
        },
{
    match preset {
        None => StreamingPreset::Offline,
        Some(p) => {
            let lower = to_lowercase(p);
            preset_from_lowercase(lower.as_str())
        },
    }
}

/// The speaker limit of a settings request: the snake-case field wins over
/// the camel-case one, 4 when neither is given, clamped to `1..=8`.
pub fn effective_max_speakers(max_speakers: Option<usize>, max_speakers_camel: Option<usize>) -> (n:
    usize)
    ensures
        n == ({
            let m = match max_speakers {
                Some(v) => v,
                None => match max_speakers_camel {
                    Some(v) => v,
                    None => 4,
                },
            };
            if m < 1 {
                1
            } else if m > 8 {
                8
            } else {
                m
            }
        }),
{
    let m = match max_speakers {
        Some(v) => v,
        None => match max_speakers_camel {
            Some(v) => v,
            None => 4,
        },
    };
    clamp_max_speakers(m)
}

/// Whether diarization starts enabled when no preferences are stored:
/// `model_file_present` is `None` while no models directory is known, else
/// whether the model file is in it. Only a present model file enables it.
pub fn enabled_by_default(model_file_present: Option<bool>) -> (enabled: bool)
    ensures
        enabled == (model_file_present == Some(true)),
{
    match model_file_present {
        Some(present) => present,
        None => false,
    }
}

/// Records `dir` as the models directory; `get_models_directory` then gives
/// it back until another directory is recorded.
pub fn record_models_directory(recorded: &mut Option<std::path::PathBuf>, dir: std::path::PathBuf)
    ensures
        *final(recorded) == Some(dir),
{
    *recorded = Some(dir);
}

/// The models directory recorded at start-up, if any.
pub fn get_models_directory(recorded: &Option<std::path::PathBuf>) -> (dir: Option<
    std::path::PathBuf,
>)
    ensures
        dir == *recorded,
{
    match recorded {
        Some(p) => Some(p.clone()),
        None => None,
    }
}

} // verus!
