use vstd::prelude::*;
use vstd::string::StringExecFns;

use crate::text::{
    is_white_space, join_words, string_views, trim_end_spec, trim_start_spec, trim_white_space,
    trimmed,
};

verus! {

/// A speaker turn as a stretch of words: the speaker's label, the turn's text,
/// and the indices of its first and last word.
#[derive(Debug, Clone)]
pub struct WordTurn {
    pub speaker: String,
    pub text: String,
    pub first_word: usize,
    pub last_word: usize,
}

/// The speaker label of each word, left to right: the label of the segment
/// active at the word's midpoint where there is one, else the previous word's
/// label, and for a first word with no active segment the first segment's.
pub open spec fn word_labels(segments: Seq<Seq<char>>, active: Seq<Option<usize>>) -> Seq<
    Seq<char>,
>
    decreases active.len(),
{
    if active.len() == 0 {
        Seq::empty()
    } else {
        let prev = word_labels(segments, active.drop_last());
        let label = match active.last() {
            Some(k) => segments[k as int],
            None => if active.len() == 1 {
                segments[0]
            } else {
                prev.last()
            },
        };
        prev.push(label)
    }
}

/// The first `k` labels after blip smoothing, which runs left to right: a
/// short word between two words whose labels agree (the left one as already
/// smoothed) takes that label when its own differs.
pub open spec fn blip_smoothed_prefix(labels: Seq<Seq<char>>, short: Seq<bool>, k: nat) -> Seq<
    Seq<char>,
>
    decreases k,
{
    if k == 0 {
        Seq::empty()
    } else {
        let p = blip_smoothed_prefix(labels, short, (k - 1) as nat);
        let i = k - 1;
        let label = if 1 <= i && i + 1 < labels.len() && p[i - 1] == labels[i + 1] && labels[i]
            != p[i - 1] && short[i] {
            p[i - 1]
        } else {
            labels[i]
        };
        p.push(label)
    }
}

/// All labels after blip smoothing.
pub open spec fn blip_smoothed(labels: Seq<Seq<char>>, short: Seq<bool>) -> Seq<Seq<char>> {
    blip_smoothed_prefix(labels, short, labels.len())
}

/// Words `first..=last` all carry the same label and the stretch can be
/// extended in neither direction.
pub open spec fn is_label_run(labels: Seq<Seq<char>>, first: int, last: int) -> bool {
    &&& 0 <= first <= last < labels.len()
    &&& forall|k: int| first <= k <= last ==> #[trigger] labels[k] == labels[first]
    &&& first == 0 || labels[first - 1] != labels[first]
    &&& last == labels.len() - 1 || labels[last + 1] != labels[first]
}

/// The text of the turn made of words `first..=last`: the words joined with
/// spaces, without surrounding white space.
pub open spec fn run_text(words: Seq<Seq<char>>, first: int, last: int) -> Seq<char> {
    trimmed(join_words(words.subrange(first, last + 1)))
}

/// `turns` are exactly the label runs of `labels` whose text is not blank, in
/// word order, each with its label and text.
pub open spec fn are_label_turns(
    turns: Seq<WordTurn>,
    words: Seq<Seq<char>>,
    labels: Seq<Seq<char>>,
) -> bool {
    &&& forall|k: int|
        #![trigger turns[k]]
        0 <= k < turns.len() ==> {
            let t = turns[k];
            &&& is_label_run(labels, t.first_word as int, t.last_word as int)
            &&& t.speaker@ == labels[t.first_word as int]
            &&& t.text@ == run_text(words, t.first_word as int, t.last_word as int)
            &&& t.text@.len() > 0
        }
    &&& forall|k: int, j: int|
        0 <= k < j < turns.len() ==> #[trigger] turns[k].last_word < #[trigger] turns[j].first_word
    &&& forall|first: int, last: int|
        #[trigger] is_label_run(labels, first, last) && run_text(words, first, last).len() > 0
            ==> exists|k: int|
            0 <= k < turns.len() && #[trigger] turns[k].first_word == first && turns[k].last_word
                == last
}

/// Labels each word with the speaker active at its midpoint: `active[i]` is
/// the index of the segment chosen for word `i`, if any segment was active.
pub fn label_words(segment_labels: &Vec<String>, active: &Vec<Option<usize>>) -> (labels: Vec<
    String,
>)
    requires
        segment_labels@.len() > 0,
        forall|i: int|
            0 <= i < active@.len() ==> match #[trigger] active@[i] {
                Some(k) => k < segment_labels@.len(),
                None => true,
            },
    ensures
        string_views(labels@) == word_labels(string_views(segment_labels@), active@),
{
    let ghost seg = string_views(segment_labels@);
    let mut labels: Vec<String> = Vec::new();
    let mut i: usize = 0;
    while i < active.len()
        invariant
            i <= active@.len(),
            segment_labels@.len() > 0,
            seg == string_views(segment_labels@),
            forall|i: int|
                0 <= i < active@.len() ==> match #[trigger] active@[i] {
                    Some(k) => k < segment_labels@.len(),
                    None => true,
                },
            string_views(labels@) == word_labels(seg, active@.take(i as int)),
            labels@.len() == i,
        decreases active@.len() - i,
    {
        proof {
            lemma_word_labels_len(seg, active@.take(i as int));
        }
        let label = match active[i] {
            Some(k) => segment_labels[k].clone(),
            None => if i == 0 {
                segment_labels[0].clone()
            } else {
                labels[i - 1].clone()
            },
        };
        proof {
            assert(active@.take(i + 1).drop_last() =~= active@.take(i as int));
            assert(active@.take(i + 1).last() == active@[i as int]);
        }
        labels.push(label);
        proof {
            assert(string_views(labels@) =~= word_labels(seg, active@.take(i as int)).push(
                label@,
            ));
        }
        i = i + 1;
    }
    proof {
        assert(active@.take(active@.len() as int) =~= active@);
    }
    labels
}

proof fn lemma_word_labels_len(segments: Seq<Seq<char>>, active: Seq<Option<usize>>)
    ensures
        word_labels(segments, active).len() == active.len(),
    decreases active.len(),
{
    if active.len() > 0 {
        lemma_word_labels_len(segments, active.drop_last());
    }
}

proof fn lemma_blip_prefix_len(labels: Seq<Seq<char>>, short: Seq<bool>, k: nat)
    ensures
        blip_smoothed_prefix(labels, short, k).len() == k,
    decreases k,
{
    if k > 0 {
        lemma_blip_prefix_len(labels, short, (k - 1) as nat);
    }
}

/// Smooths single-word blips: left to right, a short word between two words
/// whose labels agree takes their label when its own differs.
pub fn smooth_word_blips(labels: Vec<String>, short: &Vec<bool>) -> (smoothed: Vec<String>)
    requires
        short@.len() == labels@.len(),
    ensures
        string_views(smoothed@) == blip_smoothed(string_views(labels@), short@),
{
    let ghost orig = string_views(labels@);
    let n = labels.len();
    let mut w = labels;
    let mut i: usize = 0;
    while i < n
        invariant
            n == w@.len(),
            n == orig.len(),
            short@.len() == n,
            i <= n,
            string_views(w@).take(i as int) == blip_smoothed_prefix(orig, short@, i as nat),
            forall|k: int| i <= k < n ==> #[trigger] w@[k]@ == orig[k],
        decreases n - i,
    {
        let ghost p = string_views(w@).take(i as int);
        if 1 <= i && i + 1 < n && w[i - 1] == w[i + 1] && w[i] != w[i - 1] && short[i] {
            let x = w[i - 1].clone();
            w.set(i, x);
        }
        proof {
            lemma_blip_prefix_len(orig, short@, i as nat);
            if i >= 1 {
                assert(p[i - 1] == w@[i - 1]@);
            }
            assert(string_views(w@).take(i + 1) =~= p.push(w@[i as int]@));
        }
        i = i + 1;
    }
    proof {
        assert(string_views(w@).take(n as int) =~= string_views(w@));
    }
    w
}

proof fn lemma_join_extend(words: Seq<Seq<char>>, first: int, i: int)
    requires
        0 <= first < i < words.len(),
    ensures
        join_words(words.subrange(first, i + 1)) == join_words(words.subrange(first, i)) + seq![
            ' ',
        ] + words[i],
{
    let s = words.subrange(first, i + 1);
    assert(s.drop_last() =~= words.subrange(first, i));
}

/// Closes the turn of words `first..i` (exclusive), if its text is not blank.
fn close_turn(
    turns: &mut Vec<WordTurn>,
    speaker: String,
    acc: &String,
    first: usize,
    i: usize,
    Ghost(words): Ghost<Seq<Seq<char>>>,
)
    requires
        first < i <= words.len(),
        acc@ == join_words(words.subrange(first as int, i as int)),
    ensures
        ({
            let text = run_text(words, first as int, i - 1);
            &&& text.len() > 0 ==> final(turns)@ == old(turns)@.push(
                WordTurn { speaker, text: final(turns)@.last().text, first_word: first, last_word: (i - 1) as usize },
            ) && final(turns)@.last().text@ == text
            &&& text.len() == 0 ==> final(turns)@ == old(turns)@
        }),
{
    let t = trim_white_space(acc.as_str());
    if !t.is_empty() {
        let text = t.to_owned();
        turns.push(WordTurn { speaker, text, first_word: first, last_word: i - 1 });
    }
}

/// Groups consecutive words with the same label into speaker turns, dropping
/// turns whose text is blank.
pub fn group_word_turns(words: &Vec<String>, labels: &Vec<String>) -> (turns: Vec<WordTurn>)
    requires
        labels@.len() == words@.len(),
    ensures
        are_label_turns(turns@, string_views(words@), string_views(labels@)),
{
    let ghost w = string_views(words@);
    let ghost l = string_views(labels@);
    let n = words.len();
    let mut turns: Vec<WordTurn> = Vec::new();
    if n == 0 {
        return turns;
    }
    let mut first: usize = 0;
    let mut speaker = labels[0].clone();
    let mut acc = words[0].clone();
    let mut i: usize = 1;
    proof {
        assert(w.subrange(0, 1) =~= seq![w[0]]);
    }
    while i < n
        invariant
            n == words@.len() == labels@.len(),
            w == string_views(words@),
            l == string_views(labels@),
            first < i <= n,
            forall|k: int| first <= k < i ==> #[trigger] l[k] == l[first as int],
            first == 0 || l[first - 1] != l[first as int],
            speaker@ == l[first as int],
            acc@ == join_words(w.subrange(first as int, i as int)),
            forall|k: int|
                #![trigger turns@[k]]
                0 <= k < turns@.len() ==> {
                    let t = turns@[k];
                    &&& is_label_run(l, t.first_word as int, t.last_word as int)
                    &&& t.speaker@ == l[t.first_word as int]
                    &&& t.text@ == run_text(w, t.first_word as int, t.last_word as int)
                    &&& t.text@.len() > 0
                    &&& t.last_word < first
                },
            forall|k: int, j: int|
                0 <= k < j < turns@.len() ==> #[trigger] turns@[k].last_word
                    < #[trigger] turns@[j].first_word,
            forall|f: int, la: int|
                #[trigger] is_label_run(l, f, la) && run_text(w, f, la).len() > 0 && la < first
                    ==> exists|k: int|
                    0 <= k < turns@.len() && #[trigger] turns@[k].first_word == f
                        && turns@[k].last_word == la,
        decreases n - i,
    {
        if labels[i] == speaker {
            proof {
                lemma_join_extend(w, first as int, i as int);
                reveal_strlit(" ");
            }
            acc.append(" ");
            acc.append(words[i].as_str());
        } else {
            let ghost old_turns = turns@;
            proof {
                assert(is_label_run(l, first as int, i - 1));
            }
            close_turn(&mut turns, speaker, &acc, first, i, Ghost(w));
            proof {
                assert forall|f: int, la: int|
                    #[trigger] is_label_run(l, f, la) && run_text(w, f, la).len() > 0 && la < i
                        implies exists|k: int|
                        0 <= k < turns@.len() && #[trigger] turns@[k].first_word == f
                            && turns@[k].last_word == la by {
                    if la >= first {
                        assert(l[la] == l[f]);
                        assert(l[la] == l[first as int]);
                        if la < i - 1 {
                            assert(l[la + 1] == l[first as int]);
                        }
                        if f < first {
                            assert(l[first - 1] == l[f]);
                        }
                        if f > first {
                            assert(l[f - 1] == l[first as int]);
                        }
                        assert(turns@[turns@.len() - 1].first_word == f);
                    } else {
                        let k = choose|k: int|
                            0 <= k < old_turns.len() && #[trigger] old_turns[k].first_word == f
                                && old_turns[k].last_word == la;
                        assert(turns@[k] == old_turns[k]);
                    }
                }
            }
            first = i;
            speaker = labels[i].clone();
            acc = words[i].clone();
            proof {
                assert(w.subrange(i as int, i + 1) =~= seq![w[i as int]]);
            }
        }
        i = i + 1;
    }
    let ghost old_turns = turns@;
    proof {
        assert(is_label_run(l, first as int, n - 1));
    }
    close_turn(&mut turns, speaker, &acc, first, n, Ghost(w));
    proof {
        assert forall|f: int, la: int|
            #[trigger] is_label_run(l, f, la) && run_text(w, f, la).len() > 0 implies exists|
                k: int,
            |
                0 <= k < turns@.len() && #[trigger] turns@[k].first_word == f
                    && turns@[k].last_word == la by {
            if la >= first {
                assert(l[la] == l[f]);
                assert(l[la] == l[first as int]);
                if la < n - 1 {
                    assert(l[la + 1] == l[first as int]);
                }
                if f < first {
                    assert(l[first - 1] == l[f]);
                }
                if f > first {
                    assert(l[f - 1] == l[first as int]);
                }
                assert(turns@[turns@.len() - 1].first_word == f);
            } else {
                let k = choose|k: int|
                    0 <= k < old_turns.len() && #[trigger] old_turns[k].first_word == f
                        && old_turns[k].last_word == la;
                assert(turns@[k] == old_turns[k]);
            }
        }
    }
    turns
}

/// The words joined with single spaces.
pub fn join_with_spaces(words: &Vec<String>) -> (text: String)
    ensures
        text@ == join_words(string_views(words@)),
{
    let ghost w = string_views(words@);
    let n = words.len();
    let mut text = String::new();
    if n == 0 {
        return text;
    }
    text.append(words[0].as_str());
    proof {
        assert(w.subrange(0, 1) =~= seq![w[0]]);
    }
    let mut i: usize = 1;
    while i < n
        invariant
            n == words@.len(),
            w == string_views(words@),
            1 <= i <= n,
            text@ == join_words(w.subrange(0, i as int)),
        decreases n - i,
    {
        proof {
            lemma_join_extend(w, 0, i as int);
            reveal_strlit(" ");
        }
        text.append(" ");
        text.append(words[i].as_str());
        i = i + 1;
    }
    proof {
        assert(w.subrange(0, n as int) =~= w);
    }
    text
}

/// Splits timestamped words into speaker turns. `active[i]` is the segment
/// found at word `i`'s midpoint (if any) and `short[i]` tells whether the word
/// is short enough to be smoothed away as a blip. Without segments, all words
/// form one turn of "Speaker 1"; otherwise words are labelled, blips smoothed,
/// and consecutive words of one speaker grouped into turns.
pub fn assign_speaker_turns(
    words: &Vec<String>,
    segment_labels: &Vec<String>,
    active: &Vec<Option<usize>>,
    short: &Vec<bool>,
) -> (turns: Vec<WordTurn>)
    requires
        active@.len() == words@.len(),
        short@.len() == words@.len(),
        forall|i: int|
            0 <= i < active@.len() ==> match #[trigger] active@[i] {
                Some(k) => k < segment_labels@.len(),
                None => true,
            },
    ensures
        words@.len() == 0 ==> turns@.len() == 0,
        words@.len() > 0 && segment_labels@.len() == 0 ==> {
            &&& turns@.len() == 1
            &&& turns@[0].speaker@ == "Speaker 1"@
            &&& turns@[0].text@ == join_words(string_views(words@))
            &&& turns@[0].first_word == 0
            &&& turns@[0].last_word == words@.len() - 1
        },
        words@.len() > 0 && segment_labels@.len() > 0 ==> are_label_turns(
            turns@,
            string_views(words@),
            blip_smoothed(word_labels(string_views(segment_labels@), active@), short@),
        ),
        segment_labels@.len() > 0 ==> forall|k: int|
            0 <= k < turns@.len() ==> is_segment_label(
                string_views(segment_labels@),
                (#[trigger] turns@[k]).speaker@,
            ),
        words@.len() > 0 && (forall|i: int|
            0 <= i < words@.len() ==> is_clean_word(#[trigger] words@[i]@)) ==> turns_cover_words(
            turns@,
            string_views(words@),
        ),
{
    if words.len() == 0 {
        return Vec::new();
    }
    if segment_labels.len() == 0 {
        let text = join_with_spaces(words);
        let mut turns = Vec::new();
        turns.push(
            WordTurn {
                speaker: String::from_str("Speaker 1"),
                text,
                first_word: 0,
                last_word: words.len() - 1,
            },
        );
        proof {
            assert(string_views(words@).subrange(0, words@.len() as int) =~= string_views(words@));
        }
        return turns;
    }
    let labels = label_words(segment_labels, active);
    proof {
        lemma_word_labels_len(string_views(segment_labels@), active@);
    }
    let smoothed = smooth_word_blips(labels, short);
    proof {
        lemma_blip_prefix_len(
            string_views(labels@),
            short@,
            string_views(labels@).len(),
        );
    }
    let turns = group_word_turns(words, &smoothed);
    proof {
        let w = string_views(words@);
        let seg = string_views(segment_labels@);
        lemma_turn_speakers_from_segments(turns@, w, seg, active@, short@);
        if forall|i: int| 0 <= i < words@.len() ==> is_clean_word(#[trigger] words@[i]@) {
            assert forall|i: int| 0 <= i < w.len() implies is_clean_word(#[trigger] w[i]) by {
                assert(w[i] == words@[i]@);
            }
            lemma_turns_partition_words(turns@, w, string_views(smoothed@));
        }
    }
    turns
}

/// `label` is the label of one of the segments.
pub open spec fn is_segment_label(segments: Seq<Seq<char>>, label: Seq<char>) -> bool {
    exists|s: int| 0 <= s < segments.len() && segments[s] == label
}

proof fn lemma_word_labels_from_segments(segments: Seq<Seq<char>>, active: Seq<Option<usize>>)
    requires
        segments.len() > 0,
        forall|i: int|
            0 <= i < active.len() ==> match #[trigger] active[i] {
                Some(k) => k < segments.len(),
                None => true,
            },
    ensures
        forall|i: int|
            0 <= i < active.len() ==> is_segment_label(
                segments,
                #[trigger] word_labels(segments, active)[i],
            ),
    decreases active.len(),
{
    if active.len() > 0 {
        let prev_active = active.drop_last();
        assert forall|i: int| 0 <= i < prev_active.len() implies match #[trigger] prev_active[i] {
            Some(k) => k < segments.len(),
            None => true,
        } by {
            assert(prev_active[i] == active[i]);
        }
        lemma_word_labels_from_segments(segments, prev_active);
        lemma_word_labels_len(segments, prev_active);
        let labels = word_labels(segments, active);
        let n = active.len() - 1;
        assert forall|i: int| 0 <= i < active.len() implies is_segment_label(
            segments,
            #[trigger] labels[i],
        ) by {
            if i < n {
                assert(labels[i] == word_labels(segments, prev_active)[i]);
            } else {
                match active[n] {
                    Some(k) => {
                        assert(segments[k as int] == labels[i]);
                    },
                    None => {
                        if n == 0 {
                            assert(segments[0] == labels[i]);
                        } else {
                            assert(labels[i] == word_labels(segments, prev_active)[n - 1]);
                        }
                    },
                }
            }
        }
    }
}

proof fn lemma_blip_keeps_labels(
    labels: Seq<Seq<char>>,
    short: Seq<bool>,
    k: nat,
    segments: Seq<Seq<char>>,
)
    requires
        k <= labels.len(),
        forall|i: int| 0 <= i < labels.len() ==> is_segment_label(segments, #[trigger] labels[i]),
    ensures
        forall|i: int|
            0 <= i < k ==> is_segment_label(
                segments,
                #[trigger] blip_smoothed_prefix(labels, short, k)[i],
            ),
    decreases k,
{
    if k > 0 {
        lemma_blip_keeps_labels(labels, short, (k - 1) as nat, segments);
        lemma_blip_prefix_len(labels, short, (k - 1) as nat);
        let p = blip_smoothed_prefix(labels, short, (k - 1) as nat);
        let q = blip_smoothed_prefix(labels, short, k);
        assert forall|i: int| 0 <= i < k implies is_segment_label(segments, #[trigger] q[i]) by {
            if i < k - 1 {
                assert(q[i] == p[i]);
            } else if q[i] != labels[i] {
                assert(q[i] == p[i - 1]);
            }
        }
    }
}

/// With at least one speaker segment, every turn's speaker is the label of
/// one of the segments: no speaker label is made up.
pub proof fn lemma_turn_speakers_from_segments(
    turns: Seq<WordTurn>,
    words: Seq<Seq<char>>,
    segments: Seq<Seq<char>>,
    active: Seq<Option<usize>>,
    short: Seq<bool>,
)
    requires
        segments.len() > 0,
        short.len() == active.len(),
        words.len() == active.len(),
        forall|i: int|
            0 <= i < active.len() ==> match #[trigger] active[i] {
                Some(k) => k < segments.len(),
                None => true,
            },
        are_label_turns(turns, words, blip_smoothed(word_labels(segments, active), short)),
    ensures
        forall|k: int| 0 <= k < turns.len() ==> is_segment_label(segments, (#[trigger] turns[k]).speaker@),
{
    let labels = word_labels(segments, active);
    lemma_word_labels_len(segments, active);
    lemma_word_labels_from_segments(segments, active);
    lemma_blip_keeps_labels(labels, short, labels.len(), segments);
    lemma_blip_prefix_len(labels, short, labels.len());
    let smoothed = blip_smoothed_prefix(labels, short, labels.len());
    assert(blip_smoothed(labels, short) == smoothed);
    assert forall|k: int| 0 <= k < turns.len() implies is_segment_label(
        segments,
        (#[trigger] turns[k]).speaker@,
    ) by {
        let f = turns[k].first_word as int;
        assert(is_label_run(smoothed, f, turns[k].last_word as int));
        assert(turns[k].speaker@ == smoothed[f]);
        assert(0 <= f < labels.len());
        assert(is_segment_label(segments, smoothed[f]));
    }
}

/// A word that is not empty and has no white space at either end, as
/// `str::trim` leaves a word that is not blank.
pub open spec fn is_clean_word(w: Seq<char>) -> bool {
    w.len() > 0 && !is_white_space(w[0]) && !is_white_space(w.last())
}

proof fn lemma_join_clean(ws: Seq<Seq<char>>)
    requires
        ws.len() > 0,
        forall|i: int| 0 <= i < ws.len() ==> is_clean_word(#[trigger] ws[i]),
    ensures
        join_words(ws).len() > 0,
        join_words(ws)[0] == ws[0][0],
        join_words(ws).last() == ws.last().last(),
    decreases ws.len(),
{
    assert(is_clean_word(ws[0]));
    assert(is_clean_word(ws.last()));
    if ws.len() > 1 {
        let p = ws.drop_last();
        assert forall|i: int| 0 <= i < p.len() implies is_clean_word(#[trigger] p[i]) by {
            assert(p[i] == ws[i]);
        }
        lemma_join_clean(p);
        assert(p[0] == ws[0]);
    }
}

proof fn lemma_run_text_clean(words: Seq<Seq<char>>, first: int, last: int)
    requires
        0 <= first <= last < words.len(),
        forall|i: int| 0 <= i < words.len() ==> is_clean_word(#[trigger] words[i]),
    ensures
        run_text(words, first, last) == join_words(words.subrange(first, last + 1)),
        run_text(words, first, last).len() > 0,
{
    let ws = words.subrange(first, last + 1);
    assert forall|i: int| 0 <= i < ws.len() implies is_clean_word(#[trigger] ws[i]) by {
        assert(ws[i] == words[first + i]);
    }
    lemma_join_clean(ws);
    let s = join_words(ws);
    assert(trim_start_spec(s) == s);
    assert(trim_end_spec(s) == s);
}

/// The last index of the stretch of equal labels that starts at `i`.
pub open spec fn run_end(labels: Seq<Seq<char>>, i: int) -> int
    decreases labels.len() - i,
{
    if i < 0 || i >= labels.len() - 1 || labels[i + 1] != labels[i] {
        i
    } else {
        run_end(labels, i + 1)
    }
}

proof fn lemma_run_end(labels: Seq<Seq<char>>, i: int)
    requires
        0 <= i < labels.len(),
    ensures
        i <= run_end(labels, i) < labels.len(),
        forall|k: int| i <= k <= run_end(labels, i) ==> #[trigger] labels[k] == labels[i],
        run_end(labels, i) == labels.len() - 1 || labels[run_end(labels, i) + 1] != labels[i],
    decreases labels.len() - i,
{
    if i < labels.len() - 1 && labels[i + 1] == labels[i] {
        lemma_run_end(labels, i + 1);
    }
}

/// A stretch of equal labels that starts at `p` (the first word, or a word
/// whose label differs from the one before) with non-blank text is one of the
/// turns.
proof fn lemma_run_from_is_turn(turns: Seq<WordTurn>, words: Seq<Seq<char>>, labels: Seq<Seq<char>>, p: int)
    requires
        labels.len() == words.len(),
        0 <= p < words.len(),
        p == 0 || labels[p - 1] != labels[p],
        forall|i: int| 0 <= i < words.len() ==> is_clean_word(#[trigger] words[i]),
        are_label_turns(turns, words, labels),
    ensures
        exists|m: int| 0 <= m < turns.len() && #[trigger] turns[m].first_word == p,
{
    lemma_run_end(labels, p);
    let e = run_end(labels, p);
    assert(is_label_run(labels, p, e));
    lemma_run_text_clean(words, p, e);
}

/// The turns cover the words in order: the first starts at the first word,
/// each next one right after the one before, and the last ends at the last
/// word; each turn's text is its words joined with single spaces, and
/// consecutive turns have different speakers.
pub open spec fn turns_cover_words(turns: Seq<WordTurn>, words: Seq<Seq<char>>) -> bool {
    &&& turns.len() > 0
    &&& turns[0].first_word == 0
    &&& turns.last().last_word == words.len() - 1
    &&& forall|k: int|
        1 <= k < turns.len() ==> #[trigger] turns[k].first_word == turns[k - 1].last_word + 1
    &&& forall|k: int|
        0 <= k < turns.len() ==> (#[trigger] turns[k]).first_word <= turns[k].last_word
            && turns[k].text@ == join_words(
            words.subrange(turns[k].first_word as int, turns[k].last_word + 1),
        )
    &&& forall|k: int| 1 <= k < turns.len() ==> #[trigger] turns[k].speaker@ != turns[k - 1].speaker@
}

/// Where every word is non-empty with no white space at either end, the
/// speaker turns made from the word labels partition the words (see
/// `turns_cover_words`).
pub proof fn lemma_turns_partition_words(
    turns: Seq<WordTurn>,
    words: Seq<Seq<char>>,
    labels: Seq<Seq<char>>,
)
    requires
        words.len() > 0,
        labels.len() == words.len(),
        forall|i: int| 0 <= i < words.len() ==> is_clean_word(#[trigger] words[i]),
        are_label_turns(turns, words, labels),
    ensures
        turns_cover_words(turns, words),
{
    let n = words.len() as int;
    assert forall|k: int| 0 <= k < turns.len() implies (#[trigger] turns[k]).first_word
        <= turns[k].last_word && turns[k].text@ == join_words(
        words.subrange(turns[k].first_word as int, turns[k].last_word + 1),
    ) by {
        lemma_run_text_clean(words, turns[k].first_word as int, turns[k].last_word as int);
    }
    lemma_run_from_is_turn(turns, words, labels, 0);
    let m0 = choose|m: int| 0 <= m < turns.len() && #[trigger] turns[m].first_word == 0;
    if m0 > 0 {
        assert(turns[0].last_word < turns[m0].first_word);
    }
    assert forall|k: int| 1 <= k < turns.len() implies #[trigger] turns[k].first_word == turns[k
        - 1].last_word + 1 by {
        let a = turns[k - 1];
        let e = a.last_word as int;
        assert(a.last_word < turns[k].first_word);
        assert(is_label_run(labels, turns[k].first_word as int, turns[k].last_word as int));
        assert(labels[e] == labels[a.first_word as int]);
        lemma_run_from_is_turn(turns, words, labels, e + 1);
        let m = choose|m: int| 0 <= m < turns.len() && #[trigger] turns[m].first_word == e + 1;
        if m < k - 1 {
            assert(turns[m].last_word < turns[k - 1].first_word);
        } else if m > k {
            assert(turns[k].last_word < turns[m].first_word);
        }
    }
    let last = turns.len() - 1;
    let e = turns[last].last_word as int;
    if e < n - 1 {
        assert(labels[e] == labels[turns[last].first_word as int]);
        lemma_run_from_is_turn(turns, words, labels, e + 1);
        let m = choose|m: int| 0 <= m < turns.len() && #[trigger] turns[m].first_word == e + 1;
        if m < last {
            assert(turns[m].last_word < turns[last].first_word);
        }
    }
    assert forall|k: int| 1 <= k < turns.len() implies #[trigger] turns[k].speaker@ != turns[k
        - 1].speaker@ by {
        let a = turns[k - 1];
        assert(turns[k].first_word == a.last_word + 1);
        assert(labels[a.last_word as int] == labels[a.first_word as int]);
    }
}

/// Blip smoothing relabels only short words: a word that is not short keeps
/// its label, and a relabelled word sits between two words, takes the label
/// its left neighbour ends up with, and that label is its right neighbour's.
/// Conversely a short word whose label differs from its right neighbour's,
/// while its left neighbour ends up with that label, takes it.
pub proof fn lemma_blip_smoothing_relabels_only_short_words(labels: Seq<Seq<char>>, short: Seq<bool>)
    requires
        short.len() == labels.len(),
    ensures
        blip_smoothed(labels, short).len() == labels.len(),
        forall|i: int|
            0 <= i < labels.len() && !short[i] ==> #[trigger] blip_smoothed(labels, short)[i]
                == labels[i],
        forall|i: int|
            0 <= i < labels.len() && #[trigger] blip_smoothed(labels, short)[i] != labels[i] ==> {
                &&& short[i]
                &&& 1 <= i < labels.len() - 1
                &&& blip_smoothed(labels, short)[i] == blip_smoothed(labels, short)[i - 1]
                &&& blip_smoothed(labels, short)[i] == labels[i + 1]
            },
        forall|i: int|
            1 <= i < labels.len() - 1 && short[i] && blip_smoothed(labels, short)[i - 1] == labels[i
                + 1] && labels[i] != labels[i + 1] ==> #[trigger] blip_smoothed(labels, short)[i]
                == labels[i + 1],
{
    lemma_blip_prefix_relabels_only_short_words(labels, short, labels.len());
}

proof fn lemma_blip_prefix_relabels_only_short_words(labels: Seq<Seq<char>>, short: Seq<bool>, k: nat)
    requires
        short.len() == labels.len(),
        k <= labels.len(),
    ensures
        blip_smoothed_prefix(labels, short, k).len() == k,
        forall|i: int|
            0 <= i < k && !short[i] ==> #[trigger] blip_smoothed_prefix(labels, short, k)[i]
                == labels[i],
        forall|i: int|
            0 <= i < k && #[trigger] blip_smoothed_prefix(labels, short, k)[i] != labels[i] ==> {
                &&& short[i]
                &&& 1 <= i < labels.len() - 1
                &&& blip_smoothed_prefix(labels, short, k)[i] == blip_smoothed_prefix(
                    labels,
                    short,
                    k,
                )[i - 1]
                &&& blip_smoothed_prefix(labels, short, k)[i] == labels[i + 1]
            },
        forall|i: int|
            1 <= i < k && i + 1 < labels.len() && short[i] && blip_smoothed_prefix(labels, short, k)[i
                - 1] == labels[i + 1] && labels[i] != labels[i + 1] ==> #[trigger] blip_smoothed_prefix(
                labels,
                short,
                k,
            )[i] == labels[i + 1],
    decreases k,
{
    lemma_blip_prefix_len(labels, short, k);
    if k > 0 {
        lemma_blip_prefix_relabels_only_short_words(labels, short, (k - 1) as nat);
        let p = blip_smoothed_prefix(labels, short, (k - 1) as nat);
        let q = blip_smoothed_prefix(labels, short, k);
        assert forall|i: int| 0 <= i < k - 1 implies q[i] == p[i] by {}
    }
}

} // verus!
