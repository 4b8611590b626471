//! Sample-layout helpers of the audio pipeline, generic over the sample type:
//! accumulating capture into fixed-size chunks, cutting PCM into network
//! frames, splitting and merging channels, and padding to a length.

use vstd::prelude::*;

verus! {

/// Number of 16-bit samples per network frame (80 ms at 16 kHz).
pub const NETWORK_FRAME_SAMPLES: usize = 1280;

/// Consecutive pieces of `s`, each `n` long except a shorter last one.
pub open spec fn chunks_of<T>(s: Seq<T>, n: nat) -> Seq<Seq<T>>
    recommends
        n > 0,
    decreases s.len(),
{
    if s.len() == 0 || n == 0 {
        Seq::empty()
    } else if s.len() <= n {
        seq![s]
    } else {
        seq![s.take(n as int)] + chunks_of(s.skip(n as int), n)
    }
}

/// Cutting into pieces loses and reorders nothing: the pieces, one after the
/// other, give back `s`; none is empty and none is longer than `n`.
pub proof fn lemma_chunks_of_partition<T>(s: Seq<T>, n: nat)
    requires
        n > 0,
    ensures
        chunks_of(s, n).flatten() == s,
        forall|i: int|
            0 <= i < chunks_of(s, n).len() ==> 0 < #[trigger] chunks_of(s, n)[i].len() <= n,
    decreases s.len(),
{
    if s.len() == 0 {
    } else if s.len() <= n {
        assert(seq![s].flatten() =~= s) by {
            reveal_with_fuel(Seq::flatten, 2);
            assert(s + Seq::<T>::empty() =~= s);
        }
    } else {
        let rest = chunks_of(s.skip(n as int), n);
        lemma_chunks_of_partition(s.skip(n as int), n);
        let c = chunks_of(s, n);
        assert(c == seq![s.take(n as int)] + rest);
        assert(c.drop_first() =~= rest);
        assert(c.flatten() == c[0] + c.drop_first().flatten());
        assert(s.take(n as int) + s.skip(n as int) =~= s);
        assert forall|i: int| 0 <= i < c.len() implies 0 < #[trigger] c[i].len() <= n by {
            if i > 0 {
                assert(c[i] == rest[i - 1]);
            }
        }
    }
}

pub open spec fn views<T>(v: Seq<Vec<T>>) -> Seq<Seq<T>> {
    v.map_values(|x: Vec<T>| x@)
}

/// Cuts `pcm` into consecutive frames of `max_len` samples; the last frame holds
/// what is left and may be shorter.
pub fn split_frames<T: Copy>(pcm: &[T], max_len: usize) -> (out: Vec<Vec<T>>)
    requires
        max_len > 0,
    ensures
        views(out@) == chunks_of(pcm@, max_len as nat),
{
    let mut out: Vec<Vec<T>> = Vec::new();
    let len = pcm.len();
    let mut offset: usize = 0;
    assert(pcm@.skip(0) =~= pcm@);
    while offset < len
        invariant
            len == pcm@.len(),
            offset <= len,
            max_len > 0,
            chunks_of(pcm@, max_len as nat) == views(out@) + chunks_of(pcm@.skip(offset as int), max_len as nat),
        decreases len - offset,
    {
        let end = if len - offset > max_len {
            offset + max_len
        } else {
            len
        };
        let piece = vstd::slice::slice_to_vec(&pcm[offset..end]);
        let ghost rest = pcm@.skip(offset as int);
        proof {
            if rest.len() <= max_len {
                assert(piece@ =~= rest);
                assert(pcm@.skip(end as int) =~= Seq::<T>::empty());
                assert(chunks_of(rest, max_len as nat) == seq![rest]);
            } else {
                assert(piece@ =~= rest.take(max_len as int));
                assert(rest.skip(max_len as int) =~= pcm@.skip(end as int));
            }
        }
        let ghost before = out@;
        out.push(piece);
        assert(views(out@) =~= views(before) + seq![piece@]);
        proof {
            if rest.len() <= max_len {
                assert(chunks_of(pcm@.skip(end as int), max_len as nat) =~= Seq::<Seq<T>>::empty());
                assert(views(before) + seq![rest] + Seq::<Seq<T>>::empty() =~= views(before) + seq![rest]);
            }
            assert(views(before) + (seq![piece@] + chunks_of(pcm@.skip(end as int), max_len as nat))
                =~= views(out@) + chunks_of(pcm@.skip(end as int), max_len as nat));
        }
        offset = end;
    }
    assert(pcm@.skip(offset as int) =~= Seq::<T>::empty());
    assert(views(out@) + Seq::<Seq<T>>::empty() =~= views(out@));
    out
}

/// Collects captured samples and hands them out in chunks of a fixed length.
pub struct ChunkBuffer<T> {
    pending: Vec<T>,
    chunk_len: usize,
}

impl<T: Copy> ChunkBuffer<T> {
    /// The samples collected and not yet handed out, oldest first.
    pub closed spec fn pending(&self) -> Seq<T> {
        self.pending@
    }

    pub closed spec fn spec_chunk_len(&self) -> nat {
        self.chunk_len as nat
    }

    pub fn new(chunk_len: usize) -> (b: Self)
        requires
            chunk_len > 0,
        ensures
            b.pending() == Seq::<T>::empty(),
            b.spec_chunk_len() == chunk_len,
    {
        ChunkBuffer { pending: Vec::new(), chunk_len }
    }

    pub fn chunk_len(&self) -> (n: usize)
        ensures
            n == self.spec_chunk_len(),
    {
        self.chunk_len
    }

    pub fn len(&self) -> (n: usize)
        ensures
            n == self.pending().len(),
    {
        self.pending.len()
    }

    /// Appends captured samples.
    pub fn push(&mut self, samples: &[T])
        ensures
            final(self).pending() == old(self).pending() + samples@,
            final(self).spec_chunk_len() == old(self).spec_chunk_len(),
    {
        let mut i: usize = 0;
        let ghost start = self.pending@;
        while i < samples.len()
            invariant
                i <= samples@.len(),
                self.pending@ == start + samples@.take(i as int),
                self.chunk_len == old(self).chunk_len,
            decreases samples@.len() - i,
        {
            self.pending.push(samples[i]);
            assert(samples@.take(i + 1) =~= samples@.take(i as int).push(samples@[i as int]));
            i += 1;
        }
        assert(samples@.take(samples@.len() as int) =~= samples@);
    }

    /// The oldest full chunk, when one has been collected.
    pub fn pop_chunk(&mut self) -> (chunk: Option<Vec<T>>)
        ensures
            final(self).spec_chunk_len() == old(self).spec_chunk_len(),
            match chunk {
                Some(c) => old(self).pending().len() >= old(self).spec_chunk_len() && c@ == old(
                    self,
                ).pending().take(old(self).spec_chunk_len() as int) && final(self).pending() == old(
                    self,
                ).pending().skip(old(self).spec_chunk_len() as int),
                None => old(self).pending().len() < old(self).spec_chunk_len() && final(self).pending()
                    == old(self).pending(),
            },
    {
        if self.pending.len() >= self.chunk_len {
            let mut chunk = self.pending.split_off(self.chunk_len);
            std::mem::swap(&mut chunk, &mut self.pending);
            Some(chunk)
        } else {
            None
        }
    }

    /// Everything collected so far, leaving the buffer empty.
    pub fn take_rest(&mut self) -> (rest: Vec<T>)
        ensures
            rest@ == old(self).pending(),
            final(self).pending() == Seq::<T>::empty(),
            final(self).spec_chunk_len() == old(self).spec_chunk_len(),
    {
        let mut rest = Vec::new();
        std::mem::swap(&mut rest, &mut self.pending);
        rest
    }
}

/// The samples of channel `c` in interleaved audio with `ch` channels: those at
/// positions `c`, `c + ch`, `c + 2 ch`, ...
pub open spec fn stride<T>(s: Seq<T>, c: nat, ch: nat) -> Seq<T>
    recommends
        ch > 0,
    decreases s.len() - c,
{
    if c >= s.len() || ch == 0 {
        Seq::empty()
    } else if c + ch >= s.len() {
        seq![s[c as int]]
    } else {
        seq![s[c as int]] + stride(s, c + ch, ch)
    }
}

/// Splits interleaved audio into one sequence per channel.
pub fn deinterleave<T: Copy>(interleaved: &[T], channels: usize) -> (out: Vec<Vec<T>>)
    requires
        channels > 0,
    ensures
        out@.len() == channels,
        forall|c: int| 0 <= c < channels ==> #[trigger] out@[c]@ == stride(interleaved@, c as nat, channels as nat),
{
    let mut out: Vec<Vec<T>> = Vec::new();
    let len = interleaved.len();
    let mut c: usize = 0;
    while c < channels
        invariant
            len == interleaved@.len(),
            c <= channels,
            out@.len() == c,
            forall|j: int| 0 <= j < c ==> #[trigger] out@[j]@ == stride(interleaved@, j as nat, channels as nat),
        decreases channels - c,
    {
        let mut ch_samples: Vec<T> = Vec::new();
        let mut i: usize = c;
        while i < len
            invariant
                len == interleaved@.len(),
                c < channels,
                c <= i,
                stride(interleaved@, c as nat, channels as nat) == ch_samples@ + stride(interleaved@, i as nat, channels as nat),
            decreases len - i,
        {
            let ghost before = ch_samples@;
            ch_samples.push(interleaved[i]);
            assert(before + (seq![interleaved@[i as int]] + stride(interleaved@, (i + channels) as nat, channels as nat))
                =~= ch_samples@ + stride(interleaved@, (i + channels) as nat, channels as nat));
            if len - i <= channels {
                assert(stride(interleaved@, (i + channels) as nat, channels as nat) == Seq::<T>::empty());
                i = len;
            } else {
                i = i + channels;
            }
        }
        assert(ch_samples@ + Seq::<T>::empty() =~= ch_samples@);
        out.push(ch_samples);
        c += 1;
    }
    out
}

/// Sample `i` of a channel buffer, or `fill` past its end.
pub open spec fn sample_or<T>(b: Seq<T>, i: int, fill: T) -> T {
    if 0 <= i < b.len() {
        b[i]
    } else {
        fill
    }
}

/// The `i`-th sample of every channel, in channel order.
pub open spec fn column<T>(bufs: Seq<Seq<T>>, i: int, fill: T) -> Seq<T> {
    bufs.map_values(|b: Seq<T>| sample_or(b, i, fill))
}

/// The first `k` columns, one after the other.
pub open spec fn columns<T>(bufs: Seq<Seq<T>>, k: nat, fill: T) -> Seq<T>
    decreases k,
{
    if k == 0 {
        Seq::empty()
    } else {
        columns(bufs, (k - 1) as nat, fill) + column(bufs, k - 1, fill)
    }
}

/// Interleaves per-channel buffers: as many frames as the first buffer holds,
/// each frame taking one sample per channel, `fill` where a buffer is shorter.
pub fn interleave_channels<T: Copy>(buffers: &Vec<Vec<T>>, fill: T) -> (out: Vec<T>)
    requires
        buffers@.len() > 0,
    ensures
        out@ == columns(views(buffers@), buffers@[0]@.len(), fill),
{
    let frames = buffers[0].len();
    let n = buffers.len();
    let ghost bufs = views(buffers@);
    let mut out: Vec<T> = Vec::new();
    let mut i: usize = 0;
    while i < frames
        invariant
            n == buffers@.len(),
            bufs == views(buffers@),
            frames == buffers@[0]@.len(),
            i <= frames,
            out@ == columns(bufs, i as nat, fill),
        decreases frames - i,
    {
        let ghost start = out@;
        let mut c: usize = 0;
        while c < n
            invariant
                n == buffers@.len(),
                bufs == views(buffers@),
                c <= n,
                out@ == start + column(bufs, i as int, fill).take(c as int),
            decreases n - c,
        {
            let b = &buffers[c];
            let v = if i < b.len() {
                b[i]
            } else {
                fill
            };
            assert(bufs[c as int] == b@);
            out.push(v);
            assert(column(bufs, i as int, fill).take(c + 1) =~= column(bufs, i as int, fill).take(
                c as int,
            ).push(v));
            c += 1;
        }
        assert(column(bufs, i as int, fill).take(n as int) =~= column(bufs, i as int, fill));
        i += 1;
    }
    out
}

proof fn lemma_columns_len<T>(bufs: Seq<Seq<T>>, k: nat, fill: T)
    ensures
        columns(bufs, k, fill).len() == k * bufs.len(),
    decreases k,
{
    if k > 0 {
        lemma_columns_len(bufs, (k - 1) as nat, fill);
        assert(column(bufs, k - 1, fill).len() == bufs.len());
        assert(k * bufs.len() == (k - 1) * bufs.len() + bufs.len()) by (nonlinear_arith);
    } else {
        assert(k * bufs.len() == 0) by (nonlinear_arith)
            requires
                k == 0,
        ;
    }
}

proof fn lemma_columns_index<T>(bufs: Seq<Seq<T>>, k: nat, fill: T, j: int, c: int)
    requires
        0 <= j < k,
        0 <= c < bufs.len(),
    ensures
        j * bufs.len() + c < k * bufs.len(),
        columns(bufs, k, fill)[j * bufs.len() + c] == sample_or(bufs[c], j, fill),
    decreases k,
{
    let n = bufs.len();
    lemma_columns_len(bufs, (k - 1) as nat, fill);
    assert(k * n == (k - 1) * n + n) by (nonlinear_arith);
    if j < k - 1 {
        lemma_columns_index(bufs, (k - 1) as nat, fill, j, c);
    } else {
        assert(j * n == (k - 1) * n);
    }
}

proof fn lemma_stride_columns<T>(bufs: Seq<Seq<T>>, fill: T, c: int, j: int)
    requires
        bufs.len() > 0,
        forall|i: int| 0 <= i < bufs.len() ==> #[trigger] bufs[i].len() == bufs[0].len(),
        0 <= c < bufs.len(),
        0 <= j <= bufs[0].len(),
    ensures
        stride(columns(bufs, bufs[0].len(), fill), (c + j * bufs.len()) as nat, bufs.len()) == bufs[c].skip(j),
    decreases bufs[0].len() - j,
{
    let n = bufs.len();
    let len = bufs[0].len();
    let s = columns(bufs, len, fill);
    lemma_columns_len(bufs, len, fill);
    assert(bufs[c].len() == len);
    if j == len {
        assert(c + j * n >= len * n) by (nonlinear_arith)
            requires
                j == len,
                c >= 0,
        ;
        assert(bufs[c].skip(j) =~= Seq::<T>::empty());
    } else {
        lemma_columns_index(bufs, len, fill, j, c);
        assert((j + 1) * n == j * n + n) by (nonlinear_arith);
        lemma_stride_columns(bufs, fill, c, j + 1);
        if j + 1 == len {
            assert(c + j * n + n >= len * n) by (nonlinear_arith)
                requires
                    j + 1 == len,
                    c >= 0,
            ;
            assert(bufs[c].skip(j) =~= seq![bufs[c][j]]);
        } else {
            assert(c + j * n + n < len * n) by (nonlinear_arith)
                requires
                    j + 1 < len,
                    c < n,
            ;
            assert(bufs[c].skip(j) =~= seq![bufs[c][j]] + bufs[c].skip(j + 1));
        }
    }
}

/// Splitting interleaved audio undoes interleaving: when every channel buffer
/// holds the same number of samples, channel `c` of the interleaved audio is
/// buffer `c`.
pub proof fn law_deinterleave_undoes_interleave<T>(bufs: Seq<Seq<T>>, fill: T)
    requires
        bufs.len() > 0,
        forall|i: int| 0 <= i < bufs.len() ==> #[trigger] bufs[i].len() == bufs[0].len(),
    ensures
        forall|c: int|
            0 <= c < bufs.len() ==> #[trigger] stride(columns(bufs, bufs[0].len(), fill), c as nat, bufs.len())
                == bufs[c],
{
    assert forall|c: int| 0 <= c < bufs.len() implies #[trigger] stride(
        columns(bufs, bufs[0].len(), fill),
        c as nat,
        bufs.len(),
    ) == bufs[c] by {
        lemma_stride_columns(bufs, fill, c, 0);
        assert(bufs[c].skip(0) =~= bufs[c]);
    }
}

/// Each sample repeated `n` times in a row, for the first `k` samples.
pub open spec fn repeat_each<T>(s: Seq<T>, n: nat, k: nat) -> Seq<T>
    decreases k,
{
    if k == 0 {
        Seq::empty()
    } else {
        repeat_each(s, n, (k - 1) as nat) + Seq::new(n, |_j: int| s[k - 1])
    }
}

/// Spreads mono audio over `channels` channels by repeating each sample.
pub fn upmix<T: Copy>(mono: &[T], channels: usize) -> (out: Vec<T>)
    requires
        channels > 0,
    ensures
        out@ == repeat_each(mono@, channels as nat, mono@.len()),
{
    let mut out: Vec<T> = Vec::new();
    let mut i: usize = 0;
    while i < mono.len()
        invariant
            i <= mono@.len(),
            out@ == repeat_each(mono@, channels as nat, i as nat),
        decreases mono@.len() - i,
    {
        let ghost start = out@;
        let x = mono[i];
        let mut c: usize = 0;
        while c < channels
            invariant
                c <= channels,
                x == mono@[i as int],
                out@ == start + Seq::new(c as nat, |_j: int| x),
            decreases channels - c,
        {
            out.push(x);
            assert(Seq::new((c + 1) as nat, |_j: int| x) =~= Seq::new(c as nat, |_j: int| x).push(x));
            c += 1;
        }
        assert(Seq::new(channels as nat, |_j: int| x) =~= Seq::new(channels as nat, |_j: int| mono@[i as int]));
        i += 1;
    }
    out
}

/// `v` cut or padded with `fill` to exactly `len` samples.
pub fn fit_length<T: Copy>(v: &[T], len: usize, fill: T) -> (out: Vec<T>)
    ensures
        out@.len() == len,
        forall|i: int| 0 <= i < len ==> #[trigger] out@[i] == sample_or(v@, i, fill),
{
    let mut out: Vec<T> = Vec::new();
    let mut i: usize = 0;
    while i < len
        invariant
            i <= len,
            out@.len() == i,
            forall|j: int| 0 <= j < i ==> #[trigger] out@[j] == sample_or(v@, j, fill),
        decreases len - i,
    {
        if i < v.len() {
            out.push(v[i]);
        } else {
            out.push(fill);
        }
        i += 1;
    }
    out
}

/// Frames of input per resampling chunk: 80 ms at `source_rate`.
pub fn input_chunk_frames(source_rate: u32) -> (n: usize)
    ensures
        n == source_rate * 80 / 1000,
{
    let n: u64 = (source_rate as u64) * 80 / 1000;
    n as usize
}

} // verus!
