use vstd::prelude::*;

verus! {

/// Number of frames in `s` whose speaker is `Some(v)`.
pub open spec fn count_speaker(s: Seq<Option<usize>>, v: usize) -> nat
    decreases s.len(),
{
    if s.len() == 0 {
        0
    } else {
        count_speaker(s.drop_last(), v) + if s.last() == Some(v) { 1nat } else { 0nat }
    }
}

/// The window of `2 * half + 1` frames centred on frame `i`.
pub open spec fn centred_window(s: Seq<Option<usize>>, i: int, half: int) -> Seq<Option<usize>> {
    s.subrange(i - half, i + half + 1)
}

/// `v` holds a strict majority (more than `half` frames) of the window `w`.
pub open spec fn is_window_majority(w: Seq<Option<usize>>, half: nat, v: usize) -> bool {
    count_speaker(w, v) > half
}

/// Frame `i` lies where a full window of `window_size` frames fits around it.
pub open spec fn smoothable(len: int, window_size: int, i: int) -> bool {
    let half = window_size / 2;
    &&& len > window_size
    &&& half <= i < len - half
}

/// The smoothed speaker of frame `i`: the strict majority of its centred window
/// where one exists and a full window fits, else the frame's own speaker.
pub open spec fn smoothed_frame(s: Seq<Option<usize>>, window_size: nat, i: int) -> Option<usize> {
    let half = window_size / 2;
    if smoothable(s.len() as int, window_size as int, i)
        && exists|v: usize| #[trigger] is_window_majority(centred_window(s, i, half as int), half, v)
    {
        Some(choose|v: usize| #[trigger] is_window_majority(centred_window(s, i, half as int), half, v))
    } else {
        s[i]
    }
}

proof fn lemma_count_bounds(s: Seq<Option<usize>>, v1: usize, v2: usize)
    requires
        v1 != v2,
    ensures
        count_speaker(s, v1) + count_speaker(s, v2) <= s.len(),
    decreases s.len(),
{
    if s.len() > 0 {
        lemma_count_bounds(s.drop_last(), v1, v2);
    }
}

/// A window of `2 * half + 1` frames has at most one strict-majority speaker.
pub proof fn lemma_window_majority_unique(w: Seq<Option<usize>>, half: nat, v1: usize, v2: usize)
    requires
        w.len() <= 2 * half + 1,
        is_window_majority(w, half, v1),
        is_window_majority(w, half, v2),
    ensures
        v1 == v2,
{
    if v1 != v2 {
        lemma_count_bounds(w, v1, v2);
    }
}

/// With a window of three frames, a frame whose two neighbours agree on a
/// speaker takes that speaker: single-frame flips are smoothed away.
pub proof fn lemma_single_frame_flip_removed(s: Seq<Option<usize>>, i: int, v: usize)
    requires
        s.len() > 3,
        1 <= i < s.len() - 1,
        s[i - 1] == Some(v),
        s[i + 1] == Some(v),
    ensures
        smoothed_frame(s, 3, i) == Some(v),
{
    let w = centred_window(s, i, 1);
    assert(w.drop_last().drop_last().drop_last() =~= Seq::<Option<usize>>::empty());
    assert(w.drop_last().drop_last().last() == Some(v));
    assert(w.last() == Some(v));
    assert(count_speaker(w.drop_last().drop_last(), v) >= 1);
    assert(count_speaker(w.drop_last(), v) >= 1);
    assert(count_speaker(w, v) >= 2);
    assert(is_window_majority(w, 1, v));
    assert(smoothable(s.len() as int, 3, i));
    let c = choose|u: usize| #[trigger] is_window_majority(w, 1, u);
    lemma_window_majority_unique(w, 1, v, c);
}

/// Counts the frames of `s[lo..hi]` whose speaker is `Some(v)`.
fn count_in_range(s: &[Option<usize>], lo: usize, hi: usize, v: usize) -> (c: usize)
    requires
        lo <= hi <= s@.len(),
    ensures
        c == count_speaker(s@.subrange(lo as int, hi as int), v),
{
    let mut c: usize = 0;
    let mut k: usize = lo;
    while k < hi
        invariant
            lo <= k <= hi <= s@.len(),
            c == count_speaker(s@.subrange(lo as int, k as int), v),
            c <= k - lo,
        decreases hi - k,
    {
        assert(s@.subrange(lo as int, (k + 1) as int).drop_last() =~= s@.subrange(lo as int, k as int));
        if s[k] == Some(v) {
            c = c + 1;
        }
        k = k + 1;
    }
    c
}

/// Majority smoothing of a frame-speaker sequence over a sliding window: every
/// frame with a full window around it takes the window's strict-majority
/// speaker when there is one; all other frames are kept as they are.
pub fn smooth_frame_sequence(sequence: &[Option<usize>], window_size: usize) -> (smoothed: Vec<
    Option<usize>,
>)
    ensures
        smoothed@.len() == sequence@.len(),
        forall|i: int|
            0 <= i < sequence@.len() ==> #[trigger] smoothed@[i] == smoothed_frame(
                sequence@,
                window_size as nat,
                i,
            ),
{
    let len = sequence.len();
    let mut smoothed: Vec<Option<usize>> = Vec::new();
    let mut j: usize = 0;
    while j < len
        invariant
            len == sequence@.len(),
            j <= len,
            smoothed@ =~= sequence@.subrange(0, j as int),
        decreases len - j,
    {
        smoothed.push(sequence[j]);
        j = j + 1;
    }
    if len <= window_size {
        return smoothed;
    }
    let half = window_size / 2;
    let mut i: usize = half;
    while i < len - half
        invariant
            len == sequence@.len(),
            len > window_size,
            half == window_size / 2,
            half <= i <= len - half,
            smoothed@.len() == len,
            forall|k: int| 0 <= k < i ==> #[trigger] smoothed@[k] == smoothed_frame(
                sequence@,
                window_size as nat,
                k,
            ),
            forall|k: int| i <= k < len ==> #[trigger] smoothed@[k] == sequence@[k],
        decreases len - half - i,
    {
        let lo = i - half;
        let hi = i + half + 1;
        let ghost w = centred_window(sequence@, i as int, half as int);
        let mut j: usize = lo;
        let mut found: Option<usize> = None;
        while j < hi
            invariant
                lo == i - half,
                hi == i + half + 1,
                hi <= len == sequence@.len(),
                lo <= j <= hi,
                w == sequence@.subrange(lo as int, hi as int),
                match found {
                    Some(v) => is_window_majority(w, half as nat, v),
                    None => forall|k: int|
                        lo <= k < j ==> match #[trigger] sequence@[k] {
                            Some(v) => !is_window_majority(w, half as nat, v),
                            None => true,
                        },
                },
            decreases hi - j,
        {
            if found.is_none() {
                if let Some(v) = sequence[j] {
                    let c = count_in_range(sequence, lo, hi, v);
                    if c > half {
                        found = Some(v);
                    }
                }
            }
            j = j + 1;
        }
        proof {
            let s = sequence@;
            let hw = half as nat;
            assert(smoothable(len as int, window_size as int, i as int));
            match found {
                Some(v) => {
                    assert(is_window_majority(w, hw, v));
                    let c = choose|u: usize| #[trigger] is_window_majority(w, hw, u);
                    lemma_window_majority_unique(w, hw, v, c);
                    assert(smoothed_frame(s, window_size as nat, i as int) == Some(v));
                },
                None => {
                    assert forall|u: usize| !#[trigger] is_window_majority(w, hw, u) by {
                        if is_window_majority(w, hw, u) {
                            lemma_majority_occurs(w, u);
                            let k = choose|k: int| 0 <= k < w.len() && w[k] == Some(u);
                            assert(s[lo + k] == Some(u));
                        }
                    }
                    assert(smoothed_frame(s, window_size as nat, i as int) == s[i as int]);
                },
            }
        }
        if let Some(v) = found {
            smoothed.set(i, Some(v));
        }
        i = i + 1;
    }
    proof {
        assert forall|k: int| 0 <= k < len implies #[trigger] smoothed@[k] == smoothed_frame(
            sequence@,
            window_size as nat,
            k,
        ) by {
            if k >= i {
                assert(!smoothable(len as int, window_size as int, k));
            }
            if k < half {
                assert(!smoothable(len as int, window_size as int, k));
            }
        }
    }
    smoothed
}

proof fn lemma_majority_occurs(w: Seq<Option<usize>>, v: usize)
    requires
        count_speaker(w, v) > 0,
    ensures
        exists|k: int| 0 <= k < w.len() && w[k] == Some(v),
    decreases w.len(),
{
    if w.last() == Some(v) {
        assert(w[w.len() - 1] == Some(v));
    } else {
        lemma_majority_occurs(w.drop_last(), v);
        let k = choose|k: int| 0 <= k < w.drop_last().len() && w.drop_last()[k] == Some(v);
        assert(w[k] == Some(v));
    }
}

/// A maximal stretch of consecutive frames attributed to one speaker;
/// `end_frame` is exclusive.
#[derive(Debug, Clone, Copy, PartialEq, Eq)]
pub struct FrameRun {
    pub speaker_id: usize,
    pub start_frame: usize,
    pub end_frame: usize,
}

/// Frames `start..end` of `s` all belong to speaker `id`, and the stretch can
/// be extended in neither direction.
pub open spec fn is_speaker_run(s: Seq<Option<usize>>, start: int, end: int, id: usize) -> bool {
    &&& 0 <= start < end <= s.len()
    &&& forall|k: int| start <= k < end ==> #[trigger] s[k] == Some(id)
    &&& start == 0 || s[start - 1] != Some(id)
    &&& end == s.len() || s[end] != Some(id)
}

/// Groups consecutive frames with the same speaker into runs: the result is
/// exactly the maximal speaker runs of `frames`, in frame order; frames with no
/// speaker belong to no run.
pub fn frame_runs(frames: &[Option<usize>]) -> (runs: Vec<FrameRun>)
    ensures
        forall|k: int|
            0 <= k < runs@.len() ==> is_speaker_run(
                frames@,
                #[trigger] runs@[k].start_frame as int,
                runs@[k].end_frame as int,
                runs@[k].speaker_id,
            ),
        forall|k: int, j: int|
            0 <= k < j < runs@.len() ==> #[trigger] runs@[k].end_frame <= #[trigger] runs@[j].start_frame,
        forall|start: int, end: int, id: usize|
            #[trigger] is_speaker_run(frames@, start, end, id) ==> exists|k: int|
                0 <= k < runs@.len() && #[trigger] runs@[k] == (FrameRun {
                    speaker_id: id,
                    start_frame: start as usize,
                    end_frame: end as usize,
                }),
{
    let n = frames.len();
    let ghost s = frames@;
    let mut runs: Vec<FrameRun> = Vec::new();
    let mut current: Option<usize> = None;
    let mut start: usize = 0;
    let mut idx: usize = 0;
    while idx < n
        invariant
            n == s.len(),
            s == frames@,
            start <= idx <= n,
            idx == 0 ==> current is None && start == 0,
            idx > 0 ==> current == s[idx - 1],
            forall|k: int| start <= k < idx ==> s[k] == current,
            start > 0 ==> s[start - 1] != current,
            forall|k: int|
                0 <= k < runs@.len() ==> is_speaker_run(
                    s,
                    #[trigger] runs@[k].start_frame as int,
                    runs@[k].end_frame as int,
                    runs@[k].speaker_id,
                ),
            forall|k: int| 0 <= k < runs@.len() ==> #[trigger] runs@[k].end_frame <= start,
            forall|k: int, j: int|
                0 <= k < j < runs@.len() ==> #[trigger] runs@[k].end_frame <= #[trigger] runs@[j].start_frame,
            forall|st: int, en: int, id: usize|
                #[trigger] is_speaker_run(s, st, en, id) && en <= start ==> exists|k: int|
                    0 <= k < runs@.len() && #[trigger] runs@[k] == (FrameRun {
                        speaker_id: id,
                        start_frame: st as usize,
                        end_frame: en as usize,
                    }),
        decreases n - idx,
    {
        let spk = frames[idx];
        if spk != current {
            let ghost old_runs = runs@;
            if let Some(prev) = current {
                let run = FrameRun { speaker_id: prev, start_frame: start, end_frame: idx };
                runs.push(run);
                proof {
                    assert(runs@[runs@.len() - 1] == run);
                    assert(is_speaker_run(s, start as int, idx as int, prev)) by {
                        assert(s[idx as int] != Some(prev));
                        if start > 0 {
                            assert(s[start - 1] != Some(prev));
                        }
                    }
                }
            }
            proof {
                assert forall|st: int, en: int, id: usize|
                    #[trigger] is_speaker_run(s, st, en, id) && en <= idx implies exists|k: int|
                        0 <= k < runs@.len() && #[trigger] runs@[k] == (FrameRun {
                            speaker_id: id,
                            start_frame: st as usize,
                            end_frame: en as usize,
                        }) by {
                    if en > start {
                        assert(s[en - 1] == Some(id));
                        assert(current == Some(id));
                        if en < idx {
                            assert(s[en as int] == current);
                        }
                        if st < start {
                            assert(s[start - 1] == Some(id));
                            assert(s[start as int] == Some(id));
                        }
                        if st > start {
                            assert(s[st - 1] == current);
                        }
                        assert(runs@[runs@.len() - 1] == (FrameRun {
                            speaker_id: id,
                            start_frame: st as usize,
                            end_frame: en as usize,
                        }));
                    } else {
                        let k = choose|k: int|
                            0 <= k < old_runs.len() && #[trigger] old_runs[k] == (FrameRun {
                                speaker_id: id,
                                start_frame: st as usize,
                                end_frame: en as usize,
                            });
                        assert(runs@[k] == old_runs[k]);
                    }
                }
            }
            current = spk;
            start = idx;
        }
        idx = idx + 1;
    }
    let ghost old_runs = runs@;
    if let Some(prev) = current {
        let run = FrameRun { speaker_id: prev, start_frame: start, end_frame: n };
        runs.push(run);
        proof {
            assert(runs@[runs@.len() - 1] == run);
            assert(is_speaker_run(s, start as int, n as int, prev)) by {
                if start > 0 {
                    assert(s[start - 1] != Some(prev));
                }
            }
        }
    }
    proof {
        assert forall|st: int, en: int, id: usize| #[trigger] is_speaker_run(s, st, en, id) implies exists|k: int|
            0 <= k < runs@.len() && #[trigger] runs@[k] == (FrameRun {
                speaker_id: id,
                start_frame: st as usize,
                end_frame: en as usize,
            }) by {
            if en > start {
                assert(s[en - 1] == Some(id));
                if n > 0 {
                    assert(current == Some(id));
                }
                if st < start {
                    assert(s[start - 1] == Some(id));
                    assert(s[start as int] == Some(id));
                }
                if st > start {
                    assert(s[st - 1] == current);
                }
                assert(runs@[runs@.len() - 1] == (FrameRun {
                    speaker_id: id,
                    start_frame: st as usize,
                    end_frame: en as usize,
                }));
            } else {
                let k = choose|k: int|
                    0 <= k < old_runs.len() && #[trigger] old_runs[k] == (FrameRun {
                        speaker_id: id,
                        start_frame: st as usize,
                        end_frame: en as usize,
                    });
                assert(runs@[k] == old_runs[k]);
            }
        }
    }
    runs
}

/// Number of distinct speakers among `ids`.
pub fn count_distinct_speakers(ids: &[usize]) -> (n: usize)
    ensures
        n == ids@.to_set().len(),
{
    let mut seen: Vec<usize> = Vec::new();
    let mut i: usize = 0;
    while i < ids.len()
        invariant
            i <= ids@.len(),
            seen@.no_duplicates(),
            seen@.to_set() == ids@.take(i as int).to_set(),
            seen@.len() <= i,
        decreases ids@.len() - i,
    {
        let id = ids[i];
        let mut present = false;
        let mut j: usize = 0;
        while j < seen.len()
            invariant
                j <= seen@.len(),
                present <==> exists|k: int| 0 <= k < j && seen@[k] == id,
            decreases seen@.len() - j,
        {
            if seen[j] == id {
                present = true;
            }
            j = j + 1;
        }
        proof {
            assert(ids@.take(i + 1) =~= ids@.take(i as int).push(id));
            ids@.take(i as int).lemma_push_to_set_commute(id);
            seen@.lemma_push_to_set_commute(id);
        }
        if !present {
            seen.push(id);
        } else {
            proof {
                assert(seen@.to_set().contains(id));
                assert(seen@.to_set().insert(id) =~= seen@.to_set());
            }
        }
        i = i + 1;
    }
    proof {
        assert(ids@.take(ids@.len() as int) =~= ids@);
        seen@.unique_seq_to_set();
    }
    seen.len()
}

/// Number of feature frames in a model chunk: the frame count rounded down to
/// a multiple of the 8-fold subsampling factor, and at least 8.
pub fn sortformer_chunk_frames(raw_frames: usize) -> (frames: usize)
    ensures
        frames == if raw_frames < 8 { 8 } else { raw_frames - raw_frames % 8 },
{
    let t = (raw_frames / 8) * 8;
    if t < 8 {
        8
    } else {
        t
    }
}

/// The output frame read for chunk frame `t`: the model predicts over history
/// plus chunk, so the chunk is the last `chunk_frames` output frames (or all of
/// them when there are fewer), clamped to the last frame.
pub fn chunk_prediction_frame(total_frames: usize, chunk_frames: usize, t: usize) -> (frame: usize)
    requires
        total_frames > 0,
        t < chunk_frames,
    ensures
        frame == if total_frames >= chunk_frames {
            total_frames - chunk_frames + t
        } else if t < total_frames {
            t as int
        } else {
            total_frames - 1
        },
        frame < total_frames,
{
    let chunk_start = if total_frames >= chunk_frames {
        total_frames - chunk_frames
    } else {
        0
    };
    let src = chunk_start + t;
    if src < total_frames - 1 {
        src
    } else {
        total_frames - 1
    }
}

/// Number of speaker columns read from the model output.
pub fn speaker_columns(max_speakers: usize) -> (n: usize)
    ensures
        n == if max_speakers < 8 { max_speakers } else { 8 },
{
    if max_speakers < 8 {
        max_speakers
    } else {
        8
    }
}

/// The speaker limit kept by the model: `max_speakers` clamped to `1..=8`.
pub fn clamp_max_speakers(max_speakers: usize) -> (n: usize)
    ensures
        n == if max_speakers < 1 { 1 } else if max_speakers > 8 { 8 } else { max_speakers },
{
    if max_speakers < 1 {
        1
    } else if max_speakers > 8 {
        8
    } else {
        max_speakers
    }
}

} // verus!
