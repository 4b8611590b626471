//! Bookkeeping of the WSOLA time stretcher (24 kHz mono speech), generic over
//! the sample type: where the next analysis frame is searched, which input is
//! kept, what output is stable. The caller scores the candidate positions and
//! cross-fades the overlap; this state decides everything else.

use vstd::prelude::*;

verus! {

/// Samples per analysis frame (20 ms).
pub const FRAME_SIZE: usize = 480;

/// Samples cross-faded between consecutive frames (5 ms).
pub const OVERLAP_SIZE: usize = 120;

/// How far the next frame may be moved from its nominal position (4 ms).
pub const SEARCH_RADIUS: usize = 96;

/// Output advance per frame: frame minus overlap (15 ms).
pub const SYNTHESIS_HOP: usize = 360;

/// Largest input advance per frame: the synthesis hop at the fastest speed, 1.5.
pub const MAX_ANALYSIS_HOP: usize = 540;

/// What the stretcher can do next with the input it holds.
#[derive(Debug, Clone, Copy, PartialEq, Eq)]
pub enum WsolaStep {
    /// Not enough input for the next frame.
    NeedInput,
    /// The first frame can be copied to the output.
    Start,
    /// The next frame may start anywhere in `min_start..=max_start`; its nominal
    /// start is `center`.
    Search { min_start: usize, max_start: usize, center: usize },
}

/// Input and output buffers of the stretcher and the position of the next frame.
pub struct WsolaState<T> {
    analysis_hop: usize,
    input: Vec<T>,
    tail: Vec<T>,
    next_pos: usize,
    initialized: bool,
}

/// Input samples dropped after the next frame position moved to `pos`: all but the
/// search radius before it.
pub open spec fn keep_from(pos: nat) -> nat {
    if pos > SEARCH_RADIUS {
        (pos - SEARCH_RADIUS) as nat
    } else {
        0
    }
}

impl<T: Copy> WsolaState<T> {
    /// Input not yet consumed, oldest first.
    pub closed spec fn input(&self) -> Seq<T> {
        self.input@
    }

    /// Output produced but not yet handed out.
    pub closed spec fn tail(&self) -> Seq<T> {
        self.tail@
    }

    /// Nominal start of the next frame in `input()`.
    pub closed spec fn next_pos(&self) -> nat {
        self.next_pos as nat
    }

    pub closed spec fn initialized(&self) -> bool {
        self.initialized
    }

    pub closed spec fn hop(&self) -> nat {
        self.analysis_hop as nat
    }

    /// The state's invariant: the hop lies between the synthesis hop and its
    /// largest value, and the next position lies within the search radius.
    pub closed spec fn wf(&self) -> bool {
        &&& SYNTHESIS_HOP <= self.analysis_hop <= MAX_ANALYSIS_HOP
        &&& self.next_pos <= SEARCH_RADIUS
    }

    /// The step that `next_step` reports.
    pub open spec fn step_spec(&self) -> WsolaStep {
        if !self.initialized() {
            if self.input().len() < FRAME_SIZE {
                WsolaStep::NeedInput
            } else {
                WsolaStep::Start
            }
        } else {
            let center = self.next_pos();
            let min_start = if center > SEARCH_RADIUS {
                (center - SEARCH_RADIUS) as nat
            } else {
                0nat
            };
            if self.input().len() < min_start + FRAME_SIZE {
                WsolaStep::NeedInput
            } else {
                let latest = (self.input().len() - FRAME_SIZE) as nat;
                let max_start: nat = if center + SEARCH_RADIUS < latest {
                    (center + SEARCH_RADIUS) as nat
                } else {
                    latest
                };
                if min_start > max_start {
                    WsolaStep::NeedInput
                } else {
                    WsolaStep::Search {
                        min_start: min_start as usize,
                        max_start: max_start as usize,
                        center: center as usize,
                    }
                }
            }
        }
    }

    /// A stretcher whose input advances by `analysis_hop` per frame (at least the
    /// synthesis hop).
    pub fn new(analysis_hop: usize) -> (s: Self)
        requires
            analysis_hop <= MAX_ANALYSIS_HOP,
        ensures
            s.wf(),
            s.hop() == if analysis_hop < SYNTHESIS_HOP {
                SYNTHESIS_HOP
            } else {
                analysis_hop
            },
            s.input() == Seq::<T>::empty(),
            s.tail() == Seq::<T>::empty(),
            !s.initialized(),
            s.next_pos() == 0,
    {
        let hop = if analysis_hop < SYNTHESIS_HOP {
            SYNTHESIS_HOP
        } else {
            analysis_hop
        };
        WsolaState {
            analysis_hop: hop,
            input: Vec::new(),
            tail: Vec::new(),
            next_pos: 0,
            initialized: false,
        }
    }

    pub fn input_len(&self) -> (n: usize)
        ensures
            n == self.input().len(),
    {
        self.input.len()
    }

    pub fn tail_len(&self) -> (n: usize)
        ensures
            n == self.tail().len(),
    {
        self.tail.len()
    }

    /// Appends input samples.
    pub fn push_input(&mut self, samples: &[T])
        requires
            old(self).wf(),
        ensures
            final(self).wf(),
            final(self).input() == old(self).input() + samples@,
            final(self).tail() == old(self).tail(),
            final(self).next_pos() == old(self).next_pos(),
            final(self).initialized() == old(self).initialized(),
            final(self).hop() == old(self).hop(),
            wsola_call(*old(self), *final(self), samples@, Seq::<T>::empty()),
    {
        let ghost start = self.input@;
        let mut i: usize = 0;
        while i < samples.len()
            invariant
                i <= samples@.len(),
                self.input@ == start + samples@.take(i as int),
                self.tail@ == old(self).tail@,
                self.next_pos == old(self).next_pos,
                self.initialized == old(self).initialized,
                self.analysis_hop == old(self).analysis_hop,
            decreases samples@.len() - i,
        {
            self.input.push(samples[i]);
            assert(samples@.take(i + 1) =~= samples@.take(i as int).push(samples@[i as int]));
            i += 1;
        }
        assert(samples@.take(samples@.len() as int) =~= samples@);
    }

    /// What can be done next.
    pub fn next_step(&self) -> (step: WsolaStep)
        requires
            self.wf(),
        ensures
            step == self.step_spec(),
    {
        if !self.initialized {
            if self.input.len() < FRAME_SIZE {
                WsolaStep::NeedInput
            } else {
                WsolaStep::Start
            }
        } else {
            let center = self.next_pos;
            let min_start = if center > SEARCH_RADIUS {
                center - SEARCH_RADIUS
            } else {
                0
            };
            if self.input.len() < min_start + FRAME_SIZE {
                WsolaStep::NeedInput
            } else {
                let latest = self.input.len() - FRAME_SIZE;
                let max_start = if center + SEARCH_RADIUS < latest {
                    center + SEARCH_RADIUS
                } else {
                    latest
                };
                if min_start > max_start {
                    WsolaStep::NeedInput
                } else {
                    WsolaStep::Search { min_start, max_start, center }
                }
            }
        }
    }

    /// Drops consumed input: all but the search radius before the next position.
    fn compact(&mut self)
        requires
            keep_from(old(self).next_pos as nat) <= old(self).input@.len(),
        ensures
            final(self).input@ == old(self).input@.skip(keep_from(old(self).next_pos as nat) as int),
            final(self).next_pos == old(self).next_pos - keep_from(old(self).next_pos as nat),
            final(self).tail@ == old(self).tail@,
            final(self).initialized == old(self).initialized,
            final(self).analysis_hop == old(self).analysis_hop,
    {
        if self.next_pos > SEARCH_RADIUS {
            let keep = self.next_pos - SEARCH_RADIUS;
            let rest = self.input.split_off(keep);
            self.input = rest;
            self.next_pos = self.next_pos - keep;
        } else {
            assert(self.input@.skip(0) =~= self.input@);
        }
    }

    /// Copies the first frame to the output.
    pub fn start(&mut self)
        requires
            old(self).wf(),
            old(self).step_spec() == WsolaStep::Start,
        ensures
            final(self).wf(),
            final(self).initialized(),
            final(self).hop() == old(self).hop(),
            final(self).tail() == old(self).tail() + old(self).input().take(FRAME_SIZE as int),
            final(self).input() == old(self).input().skip(keep_from(old(self).hop()) as int),
            final(self).next_pos() == old(self).hop() - keep_from(old(self).hop()),
            wsola_call(*old(self), *final(self), Seq::<T>::empty(), Seq::<T>::empty()),
    {
        let mut i: usize = 0;
        let ghost start_tail = self.tail@;
        while i < FRAME_SIZE
            invariant
                i <= FRAME_SIZE,
                FRAME_SIZE <= self.input@.len(),
                self.input@ == old(self).input@,
                self.tail@ == start_tail + self.input@.take(i as int),
                self.analysis_hop == old(self).analysis_hop,
                self.initialized == old(self).initialized,
                self.next_pos == old(self).next_pos,
            decreases FRAME_SIZE - i,
        {
            let x = self.input[i];
            self.tail.push(x);
            assert(self.input@.take(i + 1) =~= self.input@.take(i as int).push(x));
            i += 1;
        }
        self.next_pos = self.analysis_hop;
        self.initialized = true;
        self.compact();
    }

    /// The last overlap of the output, against which candidates are scored.
    pub fn reference(&self) -> (r: &[T])
        requires
            self.tail().len() >= OVERLAP_SIZE,
        ensures
            r@ == self.tail().skip(self.tail().len() - OVERLAP_SIZE),
    {
        let n = self.tail.len();
        let r = vstd::slice::slice_subrange(self.tail.as_slice(), n - OVERLAP_SIZE, n);
        assert(r@ =~= self.tail().skip(self.tail().len() - OVERLAP_SIZE));
        r
    }

    /// The first overlap of the frame that would start at `start`.
    pub fn candidate(&self, start: usize) -> (c: &[T])
        requires
            self.wf(),
            start + FRAME_SIZE <= self.input().len(),
        ensures
            c@ == self.input().subrange(start as int, start + OVERLAP_SIZE),
    {
        let _n = self.input.len();
        vstd::slice::slice_subrange(self.input.as_slice(), start, start + OVERLAP_SIZE)
    }

    /// Takes the frame starting at `start` as the next one: the last overlap of the
    /// output becomes `blended` (the caller's cross-fade of that overlap into the
    /// frame's beginning), the rest of the frame is appended, and the next
    /// position moves one hop past `start`.
    pub fn commit(&mut self, start: usize, blended: &[T])
        requires
            old(self).wf(),
            old(self).step_spec() matches WsolaStep::Search { min_start, max_start, .. } && min_start
                <= start <= max_start,
            old(self).tail().len() >= OVERLAP_SIZE,
            blended@.len() == OVERLAP_SIZE,
        ensures
            final(self).wf(),
            final(self).initialized(),
            final(self).tail().len() >= OVERLAP_SIZE,
            final(self).hop() == old(self).hop(),
            final(self).tail() == old(self).tail().take(old(self).tail().len() - OVERLAP_SIZE)
                + blended@ + old(self).input().subrange(start + OVERLAP_SIZE, start + FRAME_SIZE),
            final(self).input() == old(self).input().skip(keep_from((start + old(self).hop()) as nat) as int),
            final(self).next_pos() == start + old(self).hop() - keep_from((start + old(self).hop()) as nat),
            wsola_call(*old(self), *final(self), Seq::<T>::empty(), Seq::<T>::empty()),
    {
        let _n = self.input.len();
        let base = self.tail.len() - OVERLAP_SIZE;
        self.tail.truncate(base);
        let mut i: usize = 0;
        let ghost kept = self.tail@;
        while i < OVERLAP_SIZE
            invariant
                i <= OVERLAP_SIZE,
                blended@.len() == OVERLAP_SIZE,
                self.tail@ == kept + blended@.take(i as int),
                self.input@ == old(self).input@,
                self.analysis_hop == old(self).analysis_hop,
                self.initialized == old(self).initialized,
                self.next_pos == old(self).next_pos,
            decreases OVERLAP_SIZE - i,
        {
            self.tail.push(blended[i]);
            assert(blended@.take(i + 1) =~= blended@.take(i as int).push(blended@[i as int]));
            i += 1;
        }
        assert(blended@.take(OVERLAP_SIZE as int) =~= blended@);
        let ghost with_blend = self.tail@;
        let mut j: usize = start + OVERLAP_SIZE;
        let end = start + FRAME_SIZE;
        while j < end
            invariant
                end == start + FRAME_SIZE,
                start + OVERLAP_SIZE <= j <= start + FRAME_SIZE,
                start + FRAME_SIZE <= self.input@.len(),
                self.tail@ == with_blend + self.input@.subrange(start + OVERLAP_SIZE, j as int),
                self.input@ == old(self).input@,
                self.analysis_hop == old(self).analysis_hop,
                self.initialized == old(self).initialized,
                self.next_pos == old(self).next_pos,
            decreases start + FRAME_SIZE - j,
        {
            let x = self.input[j];
            self.tail.push(x);
            assert(self.input@.subrange(start + OVERLAP_SIZE, j + 1) =~= self.input@.subrange(
                start + OVERLAP_SIZE,
                j as int,
            ).push(x));
            j += 1;
        }
        self.next_pos = start + self.analysis_hop;
        self.compact();
    }

    /// Hands out the output that no later frame will change: all but the last
    /// overlap.
    pub fn drain_stable(&mut self) -> (out: Vec<T>)
        requires
            old(self).wf(),
        ensures
            final(self).wf(),
            ({
                let n = if old(self).tail().len() > OVERLAP_SIZE {
                    old(self).tail().len() - OVERLAP_SIZE
                } else {
                    0
                };
                &&& out@ == old(self).tail().take(n)
                &&& final(self).tail() == old(self).tail().skip(n)
            }),
            final(self).input() == old(self).input(),
            final(self).next_pos() == old(self).next_pos(),
            final(self).initialized() == old(self).initialized(),
            final(self).hop() == old(self).hop(),
            wsola_call(*old(self), *final(self), Seq::<T>::empty(), out@),
    {
        let len = self.tail.len();
        if len > OVERLAP_SIZE {
            let ghost whole = self.tail@;
            let rest = self.tail.split_off(len - OVERLAP_SIZE);
            let mut out = rest;
            std::mem::swap(&mut out, &mut self.tail);
            assert(out@ + self.tail@ =~= whole);
            out
        } else {
            assert(self.tail@.take(0) =~= Seq::<T>::empty());
            assert(self.tail@.skip(0) =~= self.tail@);
            assert(Seq::<T>::empty() + self.tail@ =~= self.tail@);
            Vec::new()
        }
    }

    /// Hands out all remaining output. Once started, the stretcher can take no
    /// further frame afterwards: its output no longer holds an overlap to
    /// cross-fade with.
    pub fn flush(&mut self) -> (out: Vec<T>)
        requires
            old(self).wf(),
        ensures
            final(self).wf(),
            out@ == old(self).tail(),
            final(self).tail() == Seq::<T>::empty(),
            final(self).input() == old(self).input(),
            final(self).next_pos() == old(self).next_pos(),
            final(self).initialized() == old(self).initialized(),
            final(self).hop() == old(self).hop(),
            wsola_call(*old(self), *final(self), Seq::<T>::empty(), out@),
    {
        let mut out = Vec::new();
        std::mem::swap(&mut out, &mut self.tail);
        out
    }
}


/// The total number of samples in a run of buffers.
pub open spec fn total_len<T>(bufs: Seq<Seq<T>>) -> nat
    decreases bufs.len(),
{
    if bufs.len() == 0 {
        0
    } else {
        total_len(bufs.drop_last()) + bufs.last().len()
    }
}

/// One call on the stretcher as its contract describes it, from `before` to
/// `after`: `pushed` is the input handed in (empty for the other calls) and `out`
/// what the call returned (empty for calls that return nothing). Each call is
/// made only where its `requires` holds; `push_input`, `start`, `commit`,
/// `drain_stable` and `flush` each ensure this of their call.
pub open spec fn wsola_call<T: Copy>(before: WsolaState<T>, after: WsolaState<T>, pushed: Seq<T>, out: Seq<T>) -> bool {
    ||| {
        // push_input
        &&& before.wf()
        &&& out.len() == 0
        &&& after.wf()
        &&& after.input() == before.input() + pushed
        &&& after.tail() == before.tail()
        &&& after.initialized() == before.initialized()
    }
    ||| {
        // start
        &&& before.wf()
        &&& before.step_spec() == WsolaStep::Start
        &&& pushed.len() == 0
        &&& out.len() == 0
        &&& after.wf()
        &&& after.initialized()
        &&& after.tail() == before.tail() + before.input().take(FRAME_SIZE as int)
    }
    ||| {
        // commit
        &&& before.wf()
        &&& before.step_spec() is Search
        &&& before.tail().len() >= OVERLAP_SIZE
        &&& pushed.len() == 0
        &&& out.len() == 0
        &&& after.wf()
        &&& after.initialized()
        &&& after.tail().len() == before.tail().len() + SYNTHESIS_HOP
    }
    ||| {
        // drain_stable
        &&& before.wf()
        &&& pushed.len() == 0
        &&& after.wf()
        &&& out + after.tail() == before.tail()
        &&& after.input() == before.input()
        &&& after.initialized() == before.initialized()
    }
    ||| {
        // flush
        &&& before.wf()
        &&& pushed.len() == 0
        &&& after.wf()
        &&& out == before.tail()
        &&& after.tail() == Seq::<T>::empty()
        &&& after.input() == before.input()
        &&& after.initialized() == before.initialized()
    }
}

/// Output produced so far (handed out plus still held) is nothing before the
/// first frame, and one frame plus a synthesis hop per further frame after it.
pub open spec fn produced_ok(produced: nat, initialized: bool) -> bool {
    if initialized {
        produced >= FRAME_SIZE && (produced - FRAME_SIZE) as int % (SYNTHESIS_HOP as int) == 0
    } else {
        produced == 0
    }
}

proof fn lemma_wsola_run<T: Copy>(states: Seq<WsolaState<T>>, pushes: Seq<Seq<T>>, outs: Seq<Seq<T>>, k: int)
    requires
        states.len() == pushes.len() + 1,
        outs.len() == pushes.len(),
        states[0].input().len() == 0,
        states[0].tail().len() == 0,
        !states[0].initialized(),
        forall|j: int|
            0 <= j < pushes.len() ==> #[trigger] wsola_call(states[j], states[j + 1], pushes[j], outs[j]),
        0 <= k <= pushes.len(),
    ensures
        produced_ok(total_len(outs.take(k)) + states[k].tail().len(), states[k].initialized()),
        !states[k].initialized() ==> states[k].input().len() == total_len(pushes.take(k)),
        states[k].initialized() ==> total_len(pushes.take(k)) >= FRAME_SIZE,
    decreases k,
{
    if k == 0 {
        assert(outs.take(0).len() == 0);
        assert(pushes.take(0).len() == 0);
    } else {
        let j = k - 1;
        lemma_wsola_run(states, pushes, outs, j);
        assert(wsola_call(states[j], states[j + 1], pushes[j], outs[j]));
        assert(outs.take(k).drop_last() =~= outs.take(j));
        assert(pushes.take(k).drop_last() =~= pushes.take(j));
        assert(outs.take(k).last() == outs[j]);
        assert(pushes.take(k).last() == pushes[j]);
        let before = states[j];
        let after = states[k];
        let o = total_len(outs.take(j));
        if before.step_spec() == WsolaStep::Start && !before.initialized() && after.initialized()
            && after.tail() == before.tail() + before.input().take(FRAME_SIZE as int) {
            assert(before.input().len() >= FRAME_SIZE);
        }
        if before.initialized() && after.tail().len() == before.tail().len() + SYNTHESIS_HOP {
            let p = o + before.tail().len();
            assert((p + SYNTHESIS_HOP - FRAME_SIZE) as int % (SYNTHESIS_HOP as int) == (p - FRAME_SIZE) as int
                % (SYNTHESIS_HOP as int)) by {
                vstd::arithmetic::div_mod::lemma_mod_add_multiples_vanish(
                    (p - FRAME_SIZE) as int,
                    SYNTHESIS_HOP as int,
                );
            }
        }
    }
}

/// The stretcher's total output: over a run of calls on a new stretcher
/// (`push_input`, `start`, `commit`, `drain_stable`, `flush`, each relating one
/// state to the next by `wsola_call`), ended by `flush` after the input was
/// consumed as far as it goes (the next step needs more input), the output is
/// empty when fewer than a frame (480 samples) came in, and otherwise one frame
/// plus one synthesis hop (360 samples) per further frame.
pub proof fn law_wsola_output_length<T: Copy>(states: Seq<WsolaState<T>>, pushes: Seq<Seq<T>>, outs: Seq<Seq<T>>)
    requires
        states.len() == pushes.len() + 1,
        outs.len() == pushes.len(),
        states[0].input().len() == 0,
        states[0].tail().len() == 0,
        !states[0].initialized(),
        forall|k: int|
            0 <= k < pushes.len() ==> #[trigger] wsola_call(states[k], states[k + 1], pushes[k], outs[k]),
        states.last().step_spec() == WsolaStep::NeedInput,
        states.last().tail().len() == 0,
    ensures
        total_len(pushes) < FRAME_SIZE ==> total_len(outs) == 0,
        total_len(pushes) >= FRAME_SIZE ==> total_len(outs) >= FRAME_SIZE && (total_len(outs) - FRAME_SIZE) as int
            % (SYNTHESIS_HOP as int) == 0,
{
    let n = pushes.len() as int;
    lemma_wsola_run(states, pushes, outs, n);
    assert(outs.take(n) =~= outs);
    assert(pushes.take(n) =~= pushes);
}

} // verus!
