use diarization::streaming::{StreamingSpeakerCache, FIFO_MAX_LEN, SPKCACHE_MAX_LEN};

fn frames(from: u32, to: u32) -> Vec<u32> {
    (from..to).collect()
}

#[test]
fn fifo_fills_before_cache() {
    let mut cache: StreamingSpeakerCache<u32> = StreamingSpeakerCache::new();
    cache.push_frames(frames(0, 100));
    assert_eq!(cache.fifo_len(), 100);
    assert_eq!(cache.spkcache_len(), 0);
    cache.push_frames(frames(100, 150));
    assert_eq!(cache.fifo(), &frames(30, 150)[..]);
    assert_eq!(cache.spkcache(), &frames(0, 30)[..]);
}

#[test]
fn cache_keeps_newest_frames() {
    let mut cache: StreamingSpeakerCache<u32> = StreamingSpeakerCache::new();
    cache.push_frames(frames(0, 1000));
    assert_eq!(cache.fifo_len(), FIFO_MAX_LEN);
    assert_eq!(cache.spkcache_len(), SPKCACHE_MAX_LEN);
    assert_eq!(cache.fifo(), &frames(880, 1000)[..]);
    assert_eq!(cache.spkcache(), &frames(616, 880)[..]);
    cache.push_frames(frames(1000, 1010));
    let mut all: Vec<u32> = cache.spkcache().to_vec();
    all.extend_from_slice(cache.fifo());
    assert_eq!(all, frames(626, 1010));
}

#[test]
fn empty_push_changes_nothing() {
    let mut cache: StreamingSpeakerCache<u32> = StreamingSpeakerCache::new();
    cache.push_frames(frames(0, 130));
    cache.push_frames(Vec::new());
    assert_eq!(cache.fifo(), &frames(10, 130)[..]);
    assert_eq!(cache.spkcache(), &frames(0, 10)[..]);
}

#[test]
fn reset_forgets_everything() {
    let mut cache: StreamingSpeakerCache<u32> = StreamingSpeakerCache::new();
    cache.push_frames(frames(0, 500));
    cache.reset_streaming_state();
    assert_eq!(cache.fifo_len(), 0);
    assert_eq!(cache.spkcache_len(), 0);
}
