use diarization::frames::{
    chunk_prediction_frame, clamp_max_speakers, count_distinct_speakers, frame_runs,
    sortformer_chunk_frames, speaker_columns, FrameRun,
};
use diarization::smooth_frame_sequence;

#[test]
fn smoothing_removes_single_frame_flip() {
    let seq = vec![Some(1), Some(1), Some(2), Some(1), Some(1)];
    assert_eq!(smooth_frame_sequence(&seq, 3), vec![Some(1); 5]);
}

#[test]
fn smoothing_fills_single_silent_frame() {
    let seq = vec![Some(2), Some(2), None, Some(2), Some(3)];
    assert_eq!(
        smooth_frame_sequence(&seq, 3),
        vec![Some(2), Some(2), Some(2), Some(2), Some(3)]
    );
}

#[test]
fn smoothing_keeps_frames_without_majority() {
    let seq = vec![Some(1), Some(2), Some(3), None, Some(4)];
    assert_eq!(smooth_frame_sequence(&seq, 3), seq);
}

#[test]
fn smoothing_short_sequences_unchanged() {
    let seq = vec![Some(1), Some(2), Some(1)];
    assert_eq!(smooth_frame_sequence(&seq, 3), seq);
    let empty: Vec<Option<usize>> = Vec::new();
    assert_eq!(smooth_frame_sequence(&empty, 3), empty);
}

#[test]
fn smoothing_edges_are_kept() {
    let seq = vec![Some(2), Some(1), Some(1), Some(1), Some(2)];
    assert_eq!(
        smooth_frame_sequence(&seq, 3),
        vec![Some(2), Some(1), Some(1), Some(1), Some(2)]
    );
}

#[test]
fn smoothing_wider_window_uses_strict_majority() {
    // window of 5: majority needs at least 3 frames
    let seq = vec![Some(1), Some(1), Some(2), Some(2), Some(1), Some(3), Some(3)];
    assert_eq!(
        smooth_frame_sequence(&seq, 5),
        vec![Some(1), Some(1), Some(1), Some(2), Some(1), Some(3), Some(3)]
    );
}

#[test]
fn runs_group_consecutive_frames() {
    let seq = vec![None, Some(1), Some(1), Some(2), None, Some(2)];
    assert_eq!(
        frame_runs(&seq),
        vec![
            FrameRun { speaker_id: 1, start_frame: 1, end_frame: 3 },
            FrameRun { speaker_id: 2, start_frame: 3, end_frame: 4 },
            FrameRun { speaker_id: 2, start_frame: 5, end_frame: 6 },
        ]
    );
}

#[test]
fn runs_of_silence_are_empty() {
    assert!(frame_runs(&[None, None]).is_empty());
    assert!(frame_runs(&[]).is_empty());
    assert_eq!(
        frame_runs(&[Some(4)]),
        vec![FrameRun { speaker_id: 4, start_frame: 0, end_frame: 1 }]
    );
}

#[test]
fn distinct_speaker_count() {
    assert_eq!(count_distinct_speakers(&[1, 2, 1, 3, 2]), 3);
    assert_eq!(count_distinct_speakers(&[]), 0);
    assert_eq!(count_distinct_speakers(&[5, 5]), 1);
}

#[test]
fn chunk_frames_are_multiples_of_eight() {
    assert_eq!(sortformer_chunk_frames(0), 8);
    assert_eq!(sortformer_chunk_frames(7), 8);
    assert_eq!(sortformer_chunk_frames(8), 8);
    assert_eq!(sortformer_chunk_frames(17), 16);
    assert_eq!(sortformer_chunk_frames(201), 200);
}

#[test]
fn prediction_frames_read_the_chunk_tail() {
    // 30 output frames for a chunk of 8: frames 22..30
    assert_eq!(chunk_prediction_frame(30, 8, 0), 22);
    assert_eq!(chunk_prediction_frame(30, 8, 7), 29);
    // fewer output frames than chunk frames: clamp to the last frame
    assert_eq!(chunk_prediction_frame(5, 8, 3), 3);
    assert_eq!(chunk_prediction_frame(5, 8, 6), 4);
}

#[test]
fn speaker_limits() {
    assert_eq!(clamp_max_speakers(0), 1);
    assert_eq!(clamp_max_speakers(4), 4);
    assert_eq!(clamp_max_speakers(20), 8);
    assert_eq!(speaker_columns(3), 3);
    assert_eq!(speaker_columns(12), 8);
}
