use vstd::prelude::*;

verus! {

/// Frames per chunk the resampler is built for.
pub const RESAMPLER_CHUNK_SIZE: usize = 1024;

/// Sub-chunks the resampler splits each chunk into.
pub const RESAMPLER_SUB_CHUNKS: usize = 2;

/// Channels the resampler works on: it runs after the down-mix to mono.
pub const RESAMPLER_CHANNELS: usize = 1;

/// Splits interleaved samples into frames of `channels` samples for the
/// down-mix to mono. A single channel needs no down-mix: `None`. Otherwise
/// the frames, in order; samples after the last complete frame are left out.
pub fn downmix_frames<'a, T>(samples: &'a [T], channels: u16) -> (r: Option<Vec<&'a [T]>>)
    requires
        channels > 0,
    ensures
        channels == 1 <==> r is None,
        r matches Some(frames) ==> {
            &&& frames.len() == samples@.len() / (channels as nat)
            &&& forall|k: int| 0 <= k < frames.len() ==>
                (#[trigger] frames[k])@ == samples@.subrange(k * channels, (k + 1) * channels)
        },
{
    if channels == 1 {
        return None;
    }
    let c = channels as usize;
    let n = samples.len();
    let count = n / c;
    assert(count * c <= n) by (nonlinear_arith)
        requires count == n / c, c > 1;
    let mut frames: Vec<&'a [T]> = Vec::with_capacity(count);
    let mut k: usize = 0;
    while k < count
        invariant
            c == channels as usize,
            c > 1,
            n == samples@.len(),
            count == n / c,
            count * c <= n,
            k <= count,
            frames.len() == k,
            forall|j: int| 0 <= j < k ==> (#[trigger] frames[j])@ == samples@.subrange(j * c, (j + 1) * c),
        decreases count - k,
    {
        assert((k + 1) * c <= count * c) by (nonlinear_arith)
            requires k < count, c > 1;
        assert((k + 1) * c == k * c + c) by (nonlinear_arith);
        let start = k * c;
        let end = start + c;
        frames.push(&samples[start..end]);
        k = k + 1;
    }
    Some(frames)
}

/// Rounds `num / den` to the nearest integer, halves rounded up.
pub open spec fn rounded_quotient(num: nat, den: nat) -> nat
    recommends
        den > 0,
{
    (2 * num + den) / (2 * den)
}

/// The number of output frames that belong to the last, zero-padded chunk:
/// `remaining` real frames of a chunk of `chunk_size` gave `frames_written`
/// output frames, of which the share `remaining / chunk_size`, rounded, is
/// kept, and never more than were written.
pub open spec fn tail_output_spec(remaining: nat, frames_written: nat, chunk_size: nat) -> nat
    recommends
        chunk_size > 0,
{
    let kept = rounded_quotient(remaining * frames_written, chunk_size);
    if kept <= frames_written { kept } else { frames_written }
}

proof fn lemma_round_by_remainder(p: int, c: int, q: int, r: int)
    by (nonlinear_arith)
    requires
        c > 0,
        0 <= r < c,
        p == q * c + r,
        q >= 0,
    ensures
        (2 * p + c) / (2 * c) == if 2 * r >= c { q + 1 } else { q },
        ({
            let k = if 2 * r >= c { q + 1 } else { q };
            2 * k * c <= 2 * p + c < 2 * (k + 1) * c
        }),
{
    if 2 * r >= c {
        assert(2 * p + c == (2 * c) * (q + 1) + (2 * r - c));
    } else {
        assert(2 * p + c == (2 * c) * q + (2 * r + c));
    }
}

/// How many output frames of the last, zero-padded chunk are kept: the
/// share of the real input frames in the chunk, rounded to nearest, at most
/// the frames the resampler wrote.
pub fn tail_output_len(remaining: usize, frames_written: usize, chunk_size: usize) -> (n: usize)
    requires
        chunk_size > 0,
    ensures
        n == tail_output_spec(remaining as nat, frames_written as nat, chunk_size as nat),
        n <= frames_written,
        remaining <= chunk_size ==> 2 * n * chunk_size <= 2 * remaining * frames_written + chunk_size
            < 2 * (n + 1) * chunk_size,
        n < frames_written ==> 2 * n * chunk_size <= 2 * remaining * frames_written + chunk_size
            < 2 * (n + 1) * chunk_size,
        n == frames_written ==> 2 * frames_written * chunk_size <= 2 * remaining * frames_written + chunk_size,
{
    assert((remaining as u128) * (frames_written as u128) <= 0xffff_ffff_ffff_ffff * 0xffff_ffff_ffff_ffffu128)
        by (nonlinear_arith)
        requires remaining <= 0xffff_ffff_ffff_ffffu64, frames_written <= 0xffff_ffff_ffff_ffffu64;
    let prod: u128 = (remaining as u128) * (frames_written as u128);
    let c: u128 = chunk_size as u128;
    let q: u128 = prod / c;
    let r: u128 = prod % c;
    proof {
        assert(prod == q * c + r) by (nonlinear_arith)
            requires q == prod / c, r == prod % c, c > 0;
        assert(q <= prod) by (nonlinear_arith)
            requires q == prod / c, c > 0, prod >= 0;
        assert(prod < 0xffff_ffff_ffff_ffff_ffff_ffff_ffff_ffff) by (nonlinear_arith)
            requires prod == (remaining as u128) * (frames_written as u128),
                remaining <= 0xffff_ffff_ffff_ffff, frames_written <= 0xffff_ffff_ffff_ffff;
        lemma_round_by_remainder(prod as int, c as int, q as int, r as int);
    }
    let kept: u128 = if r * 2 >= c { q + 1 } else { q };
    proof {
        assert(prod as int == (remaining as int) * (frames_written as int));
        lemma_share_bounds(remaining as int, frames_written as int, chunk_size as int, kept as int, prod as int);
    }
    if kept <= frames_written as u128 {
        kept as usize
    } else {
        frames_written
    }
}

/// From the rounding bounds of the unbounded share `k`: a tail no longer
/// than a chunk never gets more than was written, and a share beyond what
/// was written is at least what was written.
proof fn lemma_share_bounds(rem: int, fw: int, c: int, k: int, p: int)
    by (nonlinear_arith)
    requires
        c > 0,
        rem >= 0,
        fw >= 0,
        p == rem * fw,
        2 * k * c <= 2 * p + c < 2 * (k + 1) * c,
    ensures
        2 * k * c <= 2 * rem * fw + c < 2 * (k + 1) * c,
        rem <= c ==> k <= fw,
        k > fw ==> 2 * fw * c <= 2 * rem * fw + c,
{
    if rem <= c {
        assert(2 * rem * fw <= 2 * c * fw);
        assert(2 * k * c < 2 * (fw + 1) * c);
    }
    if k > fw {
        assert(2 * fw * c <= 2 * k * c);
    }
}

/// What a tail keeps, over all inputs: the share of the real frames in the
/// output, `remaining * frames_written / chunk_size` rounded to nearest with
/// halves up, whenever that share fits in what was written, which it always
/// does for a tail no longer than a chunk; otherwise everything written.
pub proof fn lemma_tail_output_share(remaining: nat, frames_written: nat, chunk_size: nat)
    requires
        chunk_size > 0,
    ensures
        ({
            let n = tail_output_spec(remaining, frames_written, chunk_size);
            &&& n <= frames_written
            &&& remaining <= chunk_size ==> 2 * n * chunk_size <= 2 * remaining * frames_written + chunk_size
                < 2 * (n + 1) * chunk_size
            &&& n < frames_written ==> 2 * n * chunk_size <= 2 * remaining * frames_written + chunk_size
                < 2 * (n + 1) * chunk_size
            &&& n == frames_written ==> 2 * frames_written * chunk_size <= 2 * remaining * frames_written
                + chunk_size
        }),
{
    let p = remaining * frames_written;
    let c = chunk_size;
    let q = p / c;
    let r = p % c;
    assert(p == q * c + r && 0 <= r < c && q >= 0) by (nonlinear_arith)
        requires q == p / c, r == p % c, c > 0, p >= 0;
    lemma_round_by_remainder(p as int, c as int, q as int, r as int);
    let k = if 2 * r >= c { q + 1 } else { q };
    lemma_share_bounds(remaining as int, frames_written as int, chunk_size as int, k as int, p as int);
}

/// Takes whole chunks of `c` samples off the front of `s` while there are
/// enough: the chunks, in order, and what is left.
pub open spec fn split_chunks<T>(s: Seq<T>, c: nat) -> (Seq<Seq<T>>, Seq<T>)
    decreases s.len(),
{
    if c == 0 || s.len() < c {
        (Seq::empty(), s)
    } else {
        let (chunks, rest) = split_chunks(s.subrange(c as int, s.len() as int), c);
        (seq![s.subrange(0, c as int)] + chunks, rest)
    }
}

/// Splitting into chunks loses and reorders nothing: the chunks followed by
/// what is left are the samples; there are `len / c` chunks of exactly `c`
/// samples each, and `len % c` samples are left.
pub proof fn lemma_split_chunks<T>(s: Seq<T>, c: nat)
    requires
        c > 0,
    ensures
        split_chunks(s, c).0.flatten() + split_chunks(s, c).1 == s,
        split_chunks(s, c).0.len() == s.len() / c,
        forall|i: int| 0 <= i < split_chunks(s, c).0.len() ==> (#[trigger] split_chunks(s, c).0[i]).len() == c,
        split_chunks(s, c).1.len() == s.len() % c,
        split_chunks(s, c).1.len() < c,
    decreases s.len(),
{
    if s.len() < c {
        assert(s.len() / c == 0) by (nonlinear_arith) requires s.len() < c, c > 0;
        assert(s.len() % c == s.len()) by (nonlinear_arith) requires s.len() < c, c > 0;
        assert(Seq::<Seq<T>>::empty().flatten() + s =~= s);
    } else {
        let head = s.subrange(0, c as int);
        let tail = s.subrange(c as int, s.len() as int);
        lemma_split_chunks(tail, c);
        let (cs, rest) = split_chunks(tail, c);
        let all = seq![head] + cs;
        assert(all.first() == head);
        assert(all.drop_first() =~= cs);
        assert(all.flatten() == head + cs.flatten());
        assert(head + cs.flatten() + rest =~= head + (cs.flatten() + rest));
        assert(head + tail =~= s);
        assert(s.len() / c == tail.len() / c + 1) by (nonlinear_arith)
            requires tail.len() == s.len() - c, s.len() >= c, c > 0;
        assert(s.len() % c == tail.len() % c) by (nonlinear_arith)
            requires tail.len() == s.len() - c, s.len() >= c, c > 0;
        assert forall|i: int| 0 <= i < all.len() implies (#[trigger] all[i]).len() == c by {
            if i > 0 {
                assert(all[i] == cs[i - 1]);
            }
        }
    }
}

/// Splitting `s` followed by `b` takes the chunks of `s` first, then those
/// of what `s` left followed by `b`.
proof fn lemma_split_append<T>(s: Seq<T>, b: Seq<T>, c: nat)
    requires
        c > 0,
    ensures
        split_chunks(s + b, c) == (
            split_chunks(s, c).0 + split_chunks(split_chunks(s, c).1 + b, c).0,
            split_chunks(split_chunks(s, c).1 + b, c).1,
        ),
    decreases s.len(),
{
    if s.len() < c {
        assert(Seq::<Seq<T>>::empty() + split_chunks(s + b, c).0 =~= split_chunks(s + b, c).0);
    } else {
        let tail = s.subrange(c as int, s.len() as int);
        lemma_split_append(tail, b, c);
        assert((s + b).subrange(0, c as int) =~= s.subrange(0, c as int));
        assert((s + b).subrange(c as int, (s + b).len() as int) =~= tail + b);
        let r = split_chunks(split_chunks(tail, c).1 + b, c);
        assert(seq![s.subrange(0, c as int)] + (split_chunks(tail, c).0 + r.0)
            =~= (seq![s.subrange(0, c as int)] + split_chunks(tail, c).0) + r.0);
    }
}

/// Writing two batches one after the other hands the resampler the same
/// chunks, in the same order, and leaves the same samples waiting, as
/// writing the two as one batch.
pub proof fn lemma_split_two_writes<T>(pending: Seq<T>, a: Seq<T>, b: Seq<T>, c: nat)
    requires
        c > 0,
    ensures
        split_chunks(pending + a, c).0 + split_chunks(split_chunks(pending + a, c).1 + b, c).0
            == split_chunks(pending + (a + b), c).0,
        split_chunks(split_chunks(pending + a, c).1 + b, c).1 == split_chunks(pending + (a + b), c).1,
{
    lemma_split_append(pending + a, b, c);
    assert(pending + a + b =~= pending + (a + b));
}

/// Samples waiting to be resampled in chunks of a fixed number of frames.
/// Samples come in batches of any size; they leave as whole chunks, in
/// order, each released only after it was handled, and at the end as one zero-padded tail. The ghost record keeps what
/// was ever pushed and what has left, which the invariant ties together:
/// what left, followed by what waits, is exactly what was pushed.
pub struct ChunkQueue<T: Copy> {
    pending: Vec<T>,
    chunk_size: usize,
    taken: Ghost<Seq<T>>,
    pushed: Ghost<Seq<T>>,
}

impl<T: Copy> ChunkQueue<T> {
    #[verifier::type_invariant]
    spec fn nothing_lost(self) -> bool {
        &&& self.chunk_size > 0
        &&& self.taken@ + self.pending@ == self.pushed@
    }

    /// Samples waiting, in order.
    pub closed spec fn pending_of(&self) -> Seq<T> {
        self.pending@
    }

    /// Frames per chunk.
    pub closed spec fn chunk_size_of(&self) -> nat {
        self.chunk_size as nat
    }

    /// Every sample that has left the queue, in order.
    pub closed spec fn taken_of(&self) -> Seq<T> {
        self.taken@
    }

    /// Every sample ever pushed, in order.
    pub closed spec fn pushed_of(&self) -> Seq<T> {
        self.pushed@
    }

    /// An empty queue for chunks of `chunk_size` frames.
    pub fn new(chunk_size: usize) -> (q: Self)
        requires
            chunk_size > 0,
        ensures
            q.chunk_size_of() == chunk_size,
            q.pending_of() == Seq::<T>::empty(),
            q.taken_of() == Seq::<T>::empty(),
            q.pushed_of() == Seq::<T>::empty(),
    {
        ChunkQueue {
            pending: Vec::with_capacity(chunk_size),
            chunk_size,
            taken: Ghost(Seq::empty()),
            pushed: Ghost(Seq::empty()),
        }
    }

    /// Frames per chunk.
    pub fn chunk_size(&self) -> (n: usize)
        ensures
            n == self.chunk_size_of(),
            n > 0,
    {
        proof {
            use_type_invariant(self);
        }
        self.chunk_size
    }

    /// Number of samples waiting.
    pub fn pending_len(&self) -> (n: usize)
        ensures
            n == self.pending_of().len(),
    {
        self.pending.len()
    }

    /// Moves the fields out, leaving an empty queue of the same chunk size in
    /// their place.
    fn take_parts(&mut self) -> (parts: (Vec<T>, usize, Ghost<Seq<T>>, Ghost<Seq<T>>))
        ensures
            parts.0@ == old(self).pending_of(),
            parts.1 == old(self).chunk_size_of(),
            parts.2@ == old(self).taken_of(),
            parts.3@ == old(self).pushed_of(),
            parts.1 > 0,
            parts.2@ + parts.0@ == parts.3@,
    {
        proof {
            use_type_invariant(&*self);
        }
        let mut other = ChunkQueue {
            pending: Vec::new(),
            chunk_size: self.chunk_size,
            taken: Ghost(Seq::empty()),
            pushed: Ghost(Seq::empty()),
        };
        proof {
            assert(other.taken@ + other.pending@ =~= other.pushed@);
        }
        std::mem::swap(self, &mut other);
        proof {
            use_type_invariant(&other);
        }
        let ChunkQueue { pending, chunk_size, taken, pushed } = other;
        (pending, chunk_size, taken, pushed)
    }

    /// Appends a batch of samples.
    pub fn push_slice(&mut self, samples: &[T])
        ensures
            final(self).pending_of() == old(self).pending_of() + samples@,
            final(self).pushed_of() == old(self).pushed_of() + samples@,
            final(self).taken_of() == old(self).taken_of(),
            final(self).chunk_size_of() == old(self).chunk_size_of(),
            final(self).taken_of() + final(self).pending_of() == final(self).pushed_of(),
    {
        let (mut pending, chunk_size, taken, pushed) = self.take_parts();
        let ghost before = pending@;
        let mut i: usize = 0;
        while i < samples.len()
            invariant
                i <= samples@.len(),
                pending@ == before + samples@.subrange(0, i as int),
            decreases samples@.len() - i,
        {
            pending.push(samples[i]);
            i = i + 1;
            assert(pending@ =~= before + samples@.subrange(0, i as int));
        }
        assert(samples@.subrange(0, samples@.len() as int) =~= samples@);
        let ghost all = pushed@ + samples@;
        assert(taken@ + pending@ =~= all);
        *self = ChunkQueue { pending, chunk_size, taken, pushed: Ghost(all) };
    }

    /// A copy of the first whole chunk waiting, left in place until
    /// `pop_chunk` releases it; `None` when less than a chunk waits. When a
    /// chunk waits, it is the first chunk of `split_chunks` of what waits.
    pub fn front_chunk(&self) -> (r: Option<Vec<T>>)
        ensures
            r is None <==> self.pending_of().len() < self.chunk_size_of(),
            r is None ==> split_chunks(self.pending_of(), self.chunk_size_of())
                == (Seq::<Seq<T>>::empty(), self.pending_of()),
            r matches Some(chunk) ==> {
                &&& chunk@ == self.pending_of().subrange(0, self.chunk_size_of() as int)
                &&& chunk@ == split_chunks(self.pending_of(), self.chunk_size_of()).0[0]
            },
    {
        proof {
            use_type_invariant(self);
        }
        if self.pending.len() < self.chunk_size {
            return None;
        }
        let mut chunk: Vec<T> = Vec::with_capacity(self.chunk_size);
        let mut i: usize = 0;
        while i < self.chunk_size
            invariant
                self.chunk_size <= self.pending@.len(),
                i <= self.chunk_size,
                chunk@ == self.pending@.subrange(0, i as int),
            decreases self.chunk_size - i,
        {
            chunk.push(self.pending[i]);
            i = i + 1;
            assert(chunk@ =~= self.pending@.subrange(0, i as int));
        }
        Some(chunk)
    }

    /// Releases the first whole chunk, once it has been resampled and
    /// written: what waits loses its first chunk, which joins what has left.
    /// The chunks still to come are the rest of `split_chunks`, and what will
    /// be left is unchanged.
    pub fn pop_chunk(&mut self)
        requires
            old(self).pending_of().len() >= old(self).chunk_size_of(),
        ensures
            final(self).pending_of() == old(self).pending_of().subrange(
                old(self).chunk_size_of() as int,
                old(self).pending_of().len() as int,
            ),
            final(self).taken_of() == old(self).taken_of() + old(self).pending_of().subrange(
                0,
                old(self).chunk_size_of() as int,
            ),
            split_chunks(old(self).pending_of(), old(self).chunk_size_of()) == (
                seq![old(self).pending_of().subrange(0, old(self).chunk_size_of() as int)]
                    + split_chunks(final(self).pending_of(), old(self).chunk_size_of()).0,
                split_chunks(final(self).pending_of(), old(self).chunk_size_of()).1,
            ),
            final(self).pushed_of() == old(self).pushed_of(),
            final(self).chunk_size_of() == old(self).chunk_size_of(),
            final(self).taken_of() + final(self).pending_of() == final(self).pushed_of(),
    {
        let (mut pending, chunk_size, taken, pushed) = self.take_parts();
        let ghost all = pending@;
        let rest = pending.split_off(chunk_size);
        let ghost moved = taken@ + pending@;
        assert(all =~= pending@ + rest@);
        assert(moved + rest@ =~= pushed@);
        assert(all.subrange(0, chunk_size as int) =~= pending@);
        assert(all.subrange(chunk_size as int, all.len() as int) =~= rest@);
        *self = ChunkQueue { pending: rest, chunk_size, taken: Ghost(moved), pushed };
    }

    /// Takes what is left at the end of the stream as one last chunk: the
    /// waiting samples, cut or padded with `fill` to the chunk size, and the
    /// number of samples that were waiting. Nothing waiting gives `None`. The
    /// queue is empty afterwards.
    pub fn take_tail(&mut self, fill: T) -> (r: Option<(Vec<T>, usize)>)
        ensures
            old(self).pending_of().len() == 0 <==> r is None,
            r matches Some((padded, n)) ==> {
                &&& n == old(self).pending_of().len()
                &&& padded@.len() == old(self).chunk_size_of()
                &&& forall|i: int| 0 <= i < padded@.len() ==>
                    #[trigger] padded@[i] == if i < n { old(self).pending_of()[i] } else { fill }
            },
            final(self).pending_of() == Seq::<T>::empty(),
            final(self).taken_of() == old(self).taken_of() + old(self).pending_of(),
            final(self).pushed_of() == old(self).pushed_of(),
            final(self).chunk_size_of() == old(self).chunk_size_of(),
            final(self).taken_of() + final(self).pending_of() == final(self).pushed_of(),
    {
        let (mut pending, chunk_size, taken, pushed) = self.take_parts();
        let ghost all = pending@;
        let n = pending.len();
        let moved: Ghost<Seq<T>> = Ghost(taken@ + all);
        assert(moved@ + Seq::<T>::empty() =~= pushed@);
        *self = ChunkQueue { pending: Vec::new(), chunk_size, taken: moved, pushed };
        if n == 0 {
            return None;
        }
        if n >= chunk_size {
            pending.truncate(chunk_size);
        } else {
            while pending.len() < chunk_size
                invariant
                    n < chunk_size,
                    n <= pending@.len() <= chunk_size,
                    forall|i: int| 0 <= i < pending@.len() ==>
                        #[trigger] pending@[i] == if i < n { all[i] } else { fill },
                    all.len() == n,
                decreases chunk_size - pending@.len(),
            {
                pending.push(fill);
            }
        }
        Some((pending, n))
    }
}

} // verus!
