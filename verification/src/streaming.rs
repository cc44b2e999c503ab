use vstd::prelude::*;

verus! {

/// Frames of recent, continuous audio kept in the FIFO (about 9.6 s).
pub const FIFO_MAX_LEN: usize = 120;

/// Frames of older audio kept in the long-term speaker cache (about 21.1 s).
pub const SPKCACHE_MAX_LEN: usize = 264;

/// The FIFO after pushing `frames` onto `fifo`: the newest `FIFO_MAX_LEN`
/// frames of the two together.
pub open spec fn fifo_after_push<F>(fifo: Seq<F>, frames: Seq<F>) -> Seq<F> {
    let combined = fifo + frames;
    if combined.len() > FIFO_MAX_LEN {
        combined.subrange(combined.len() - FIFO_MAX_LEN, combined.len() as int)
    } else {
        combined
    }
}

/// The speaker cache after pushing `frames`: the frames that overflow the FIFO,
/// oldest first, are appended to the cache, which then keeps its newest
/// `SPKCACHE_MAX_LEN` frames.
pub open spec fn spkcache_after_push<F>(spkcache: Seq<F>, fifo: Seq<F>, frames: Seq<F>) -> Seq<F> {
    let combined = fifo + frames;
    if combined.len() > FIFO_MAX_LEN {
        let cache = spkcache + combined.subrange(0, combined.len() - FIFO_MAX_LEN);
        if cache.len() > SPKCACHE_MAX_LEN {
            cache.subrange(cache.len() - SPKCACHE_MAX_LEN, cache.len() as int)
        } else {
            cache
        }
    } else {
        spkcache
    }
}

/// The last `n` items of `s` (all of `s` when it is shorter).
pub open spec fn newest<F>(s: Seq<F>, n: nat) -> Seq<F> {
    if s.len() > n {
        s.subrange(s.len() - n, s.len() as int)
    } else {
        s
    }
}

/// Streaming memory of the diarization model: a FIFO of the most recent
/// frame embeddings whose overflow cascades into a bounded speaker cache.
pub struct StreamingSpeakerCache<F> {
    fifo: Vec<F>,
    spkcache: Vec<F>,
}

impl<F> StreamingSpeakerCache<F> {
    /// Both parts are within their bounds, and the cache only holds frames
    /// once the FIFO is full.
    #[verifier::type_invariant]
    spec fn bounded(self) -> bool {
        &&& self.fifo@.len() <= FIFO_MAX_LEN
        &&& self.spkcache@.len() <= SPKCACHE_MAX_LEN
        &&& self.spkcache@.len() > 0 ==> self.fifo@.len() == FIFO_MAX_LEN
    }

    /// The FIFO's frames, oldest first.
    pub closed spec fn fifo_view(&self) -> Seq<F> {
        self.fifo@
    }

    /// The speaker cache's frames, oldest first.
    pub closed spec fn spkcache_view(&self) -> Seq<F> {
        self.spkcache@
    }

    /// An empty cache.
    pub fn new() -> (cache: Self)
        ensures
            cache.fifo_view() == Seq::<F>::empty(),
            cache.spkcache_view() == Seq::<F>::empty(),
    {
        StreamingSpeakerCache { fifo: Vec::new(), spkcache: Vec::new() }
    }

    /// Forgets all frames, as between two distinct recording sessions.
    pub fn reset_streaming_state(&mut self)
        ensures
            final(self).fifo_view() == Seq::<F>::empty(),
            final(self).spkcache_view() == Seq::<F>::empty(),
    {
        *self = StreamingSpeakerCache { fifo: Vec::new(), spkcache: Vec::new() };
    }

    /// Number of frames in the FIFO.
    pub fn fifo_len(&self) -> (n: usize)
        ensures
            n == self.fifo_view().len(),
            n <= FIFO_MAX_LEN,
    {
        proof {
            use_type_invariant(self);
        }
        self.fifo.len()
    }

    /// Number of frames in the speaker cache.
    pub fn spkcache_len(&self) -> (n: usize)
        ensures
            n == self.spkcache_view().len(),
            n <= SPKCACHE_MAX_LEN,
            n > 0 ==> self.fifo_view().len() == FIFO_MAX_LEN,
    {
        proof {
            use_type_invariant(self);
        }
        self.spkcache.len()
    }

    /// The FIFO's frames, oldest first.
    pub fn fifo(&self) -> (frames: &[F])
        ensures
            frames@ == self.fifo_view(),
    {
        self.fifo.as_slice()
    }

    /// The speaker cache's frames, oldest first.
    pub fn spkcache(&self) -> (frames: &[F])
        ensures
            frames@ == self.spkcache_view(),
    {
        self.spkcache.as_slice()
    }

    /// Appends the embeddings of a new chunk to the FIFO; what no longer fits
    /// in the FIFO moves, oldest first, into the speaker cache, which keeps
    /// its newest frames.
    pub fn push_frames(&mut self, frames: Vec<F>)
        ensures
            final(self).fifo_view() == fifo_after_push(old(self).fifo_view(), frames@),
            final(self).spkcache_view() == spkcache_after_push(
                old(self).spkcache_view(),
                old(self).fifo_view(),
                frames@,
            ),
            final(self).spkcache_view() + final(self).fifo_view() == newest(
                old(self).spkcache_view() + old(self).fifo_view() + frames@,
                (FIFO_MAX_LEN + SPKCACHE_MAX_LEN) as nat,
            ),
    {
        proof {
            use_type_invariant(&*self);
            lemma_push_keeps_newest_frames(self.spkcache@, self.fifo@, frames@);
        }
        let mut taken = StreamingSpeakerCache::new();
        std::mem::swap(&mut taken, self);
        let StreamingSpeakerCache { fifo: mut combined, spkcache: old_cache } = taken;
        let mut frames = frames;
        combined.append(&mut frames);
        let total = combined.len();
        if total > FIFO_MAX_LEN {
            let overflow = total - FIFO_MAX_LEN;
            let recent = combined.split_off(overflow);
            let mut cache = old_cache;
            cache.append(&mut combined);
            let cache_len = cache.len();
            let kept = if cache_len > SPKCACHE_MAX_LEN {
                cache.split_off(cache_len - SPKCACHE_MAX_LEN)
            } else {
                cache
            };
            *self = StreamingSpeakerCache { fifo: recent, spkcache: kept };
        } else {
            *self = StreamingSpeakerCache { fifo: combined, spkcache: old_cache };
        }
    }
}

/// After a push, the speaker cache followed by the FIFO holds exactly the
/// newest frames seen so far, oldest first: the last `FIFO_MAX_LEN +
/// SPKCACHE_MAX_LEN` frames (or all of them) of the previous cache, the
/// previous FIFO and the pushed frames, in that order.
pub proof fn lemma_push_keeps_newest_frames<F>(spkcache: Seq<F>, fifo: Seq<F>, frames: Seq<F>)
    requires
        fifo.len() <= FIFO_MAX_LEN,
        spkcache.len() <= SPKCACHE_MAX_LEN,
        spkcache.len() > 0 ==> fifo.len() == FIFO_MAX_LEN,
    ensures
        spkcache_after_push(spkcache, fifo, frames) + fifo_after_push(fifo, frames) == newest(
            spkcache + fifo + frames,
            (FIFO_MAX_LEN + SPKCACHE_MAX_LEN) as nat,
        ),
        fifo_after_push(fifo, frames).len() <= FIFO_MAX_LEN,
        spkcache_after_push(spkcache, fifo, frames).len() <= SPKCACHE_MAX_LEN,
{
    let all = spkcache + fifo + frames;
    let combined = fifo + frames;
    let nf = FIFO_MAX_LEN as int;
    let n = (FIFO_MAX_LEN + SPKCACHE_MAX_LEN) as nat;
    if combined.len() > nf {
        let cache = spkcache + combined.subrange(0, combined.len() - nf);
        let tail = combined.subrange(combined.len() - nf, combined.len() as int);
        assert(cache + tail =~= all);
        if cache.len() > SPKCACHE_MAX_LEN {
            assert(cache.subrange(cache.len() - SPKCACHE_MAX_LEN, cache.len() as int) + tail
                =~= all.subrange(all.len() - n, all.len() as int));
        }
    } else {
        assert(spkcache + combined =~= all);
        if spkcache.len() > 0 {
            assert(frames.len() == 0);
        }
    }
}

/// Pushing no frames leaves the FIFO and the speaker cache as they were.
pub proof fn lemma_empty_push_unchanged<F>(spkcache: Seq<F>, fifo: Seq<F>)
    requires
        fifo.len() <= FIFO_MAX_LEN,
    ensures
        fifo_after_push(fifo, Seq::<F>::empty()) == fifo,
        spkcache_after_push(spkcache, fifo, Seq::<F>::empty()) == spkcache,
{
    assert(fifo + Seq::<F>::empty() =~= fifo);
}

} // verus!
