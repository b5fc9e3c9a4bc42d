use vstd::prelude::*;

verus! {

/// Number of slots the ring starts with.
pub const DEFAULT_LENGTH: usize = 8192;

/// What a `Scope` is, seen from its contracts.
pub struct ScopeView<T> {
    pub samples: Seq<T>,
    pub write_cursor: nat,
    pub samples_outdated: bool,
    pub length: nat,
    pub skip: nat,
    pub record: bool,
    pub reverse: bool,
    pub cycle: bool,
}

/// The ring buffer of an oscilloscope and the switches that govern it.
///
/// Incoming frames are written at `write_cursor / skip`; when that slot falls
/// outside the ring the cursor starts again at zero.
pub struct Scope<T> {
    samples: Vec<T>,
    write_cursor: usize,
    samples_outdated: bool,
    length: usize,
    skip: usize,
    record: bool,
    reverse: bool,
    cycle: bool,
}

impl<T> View for Scope<T> {
    type V = ScopeView<T>;

    closed spec fn view(&self) -> ScopeView<T> {
        ScopeView {
            samples: self.samples@,
            write_cursor: self.write_cursor as nat,
            samples_outdated: self.samples_outdated,
            length: self.length as nat,
            skip: self.skip as nat,
            record: self.record,
            reverse: self.reverse,
            cycle: self.cycle,
        }
    }
}

impl<T> ScopeView<T> {
    /// The ring holds as many slots as its recorded length says.
    pub open spec fn wf(self) -> bool {
        self.samples.len() == self.length
    }
}


/// The cursor a write starts from: it goes back to zero once `cursor / skip`
/// no longer names a slot of a ring of `len` slots.
pub open spec fn restart(cursor: nat, skip: nat, len: nat) -> nat {
    if cursor / skip >= len { 0 } else { cursor }
}

/// One incoming frame, the `i`-th of its buffer, of value `v`: a frame whose
/// index is a multiple of `skip` is written at slot `restart(..) / skip`, if
/// the ring has that slot, and moves the cursor on by one.
pub open spec fn record_step<T>(state: (nat, Seq<T>), i: int, v: T, skip: nat) -> (nat, Seq<T>) {
    if i % (skip as int) == 0 {
        let c = restart(state.0, skip, state.1.len());
        let slot = c / skip;
        let buf = if slot < state.1.len() { state.1.update(slot as int, v) } else { state.1 };
        ((c + 1) as nat, buf)
    } else {
        state
    }
}

/// Cursor and ring after the first `n` frames of `input`.
pub open spec fn record_run<T>(cursor: nat, buf: Seq<T>, input: Seq<T>, skip: nat, n: nat) -> (nat, Seq<T>)
    decreases n,
{
    if n == 0 {
        (cursor, buf)
    } else {
        record_step(record_run(cursor, buf, input, skip, (n - 1) as nat), n - 1, input[n - 1], skip)
    }
}

proof fn lemma_slot_below(c: int, skip: int, len: int)
    requires
        skip > 0,
        c >= 0,
        c / skip < len,
    ensures
        c < skip * len,
{
    assert(c < skip * len) by (nonlinear_arith)
        requires
            skip > 0,
            c >= 0,
            c / skip < len,
    {
        assert(c == skip * (c / skip) + c % skip);
        assert(skip * (c / skip) + skip <= skip * len);
    }
}

/// Writes the frames of `input` into `buf` from `cursor` on, as `record_step`
/// says, and returns the cursor it ends on.
fn record_into<T: Copy>(cursor: usize, buf: &mut Vec<T>, input: &[T], skip: usize) -> (c: usize)
    requires
        input@.len() > 0 ==> skip > 0,
        cursor + input@.len() <= usize::MAX || skip * old(buf)@.len() <= usize::MAX,
    ensures
        final(buf)@.len() == old(buf)@.len(),
        (c as nat, final(buf)@) == record_run(cursor as nat, old(buf)@, input@, skip as nat, input@.len()),
{
    let n = input.len();
    let mut c = cursor;
    let mut i: usize = 0;
    while i < n
        invariant
            i <= n,
            n == input@.len(),
            n > 0 ==> skip > 0,
            buf@.len() == old(buf)@.len(),
            cursor + n <= usize::MAX || skip * buf@.len() <= usize::MAX,
            c <= cursor + i,
            (c as nat, buf@) == record_run(cursor as nat, old(buf)@, input@, skip as nat, i as nat),
        decreases n - i,
    {
        if i % skip == 0 {
            if c / skip >= buf.len() {
                c = 0;
            }
            proof {
                if c / skip < buf.len() {
                    lemma_slot_below(c as int, skip as int, buf.len() as int);
                }
            }
            let slot = c / skip;
            if slot < buf.len() {
                buf.set(slot, input[i]);
            }
            c = c + 1;
        }
        i = i + 1;
    }
    c
}


impl<T> ScopeView<T> {
    /// The state after a buffer of frames `input` came in.
    pub open spec fn recorded(self, input: Seq<T>) -> ScopeView<T> {
        if self.record {
            let run = record_run(self.write_cursor, self.samples, input, self.skip, input.len());
            ScopeView { write_cursor: run.0, samples: run.1, samples_outdated: true, ..self }
        } else {
            ScopeView { samples_outdated: true, ..self }
        }
    }
}

/// `s` read from slot `k` to its end, then from its start up to `k`.
pub open spec fn rotated<T>(s: Seq<T>, k: int) -> Seq<T> {
    s.subrange(k, s.len() as int) + s.subrange(0, k)
}

impl<T> ScopeView<T> {
    /// The cursor once a trace has been drawn: a cycling scope leaves it,
    /// any other restarts it when it has run past the ring.
    pub open spec fn traced_cursor(self) -> nat {
        if self.cycle {
            self.write_cursor
        } else {
            restart(self.write_cursor, self.skip, self.samples.len())
        }
    }

    /// The slot the trace starts from: the start of the ring when cycling,
    /// else the slot the next frame goes to, so that the oldest sample comes
    /// first.
    pub open spec fn trace_start(self) -> nat {
        if self.cycle {
            0
        } else {
            self.traced_cursor() / self.skip
        }
    }

    /// The samples in the order in which the trace draws them.
    pub open spec fn trace(self) -> Seq<T> {
        let ordered = rotated(self.samples, self.trace_start() as int);
        if self.reverse {
            ordered.reverse()
        } else {
            ordered
        }
    }
}


/// `s` cut to `n` items, or filled up to `n` with `zero`.
pub open spec fn resized<T>(s: Seq<T>, n: nat, zero: T) -> Seq<T> {
    if n <= s.len() {
        s.take(n as int)
    } else {
        s + Seq::new((n - s.len()) as nat, |i: int| zero)
    }
}


/// Cuts `buf` to `length` items, or fills it up to `length` with `zero`.
fn resize_ring<T: Copy>(buf: &mut Vec<T>, length: usize, zero: T)
    ensures
        final(buf)@ == resized(old(buf)@, length as nat, zero),
{
    if length <= buf.len() {
        buf.truncate(length);
    } else {
        while buf.len() < length
            invariant
                old(buf)@.len() <= buf@.len() <= length,
                buf@.subrange(0, old(buf)@.len() as int) == old(buf)@,
                forall|i: int| old(buf)@.len() <= i < buf@.len() ==> buf@[i] == zero,
            decreases length - buf.len(),
        {
            buf.push(zero);
        }
        assert(buf@ =~= resized(old(buf)@, length as nat, zero));
    }
}

impl<T: Copy> Scope<T> {
    /// The state in which capture starts: `length` slots filled with `zero`,
    /// cursor at the start, every frame kept, recording on, no reversal and
    /// no cycling.
    pub fn new(length: usize, zero: T) -> (s: Self)
        ensures
            s@.wf(),
            s@.samples == Seq::new(length as nat, |i: int| zero),
            s@.write_cursor == 0,
            !s@.samples_outdated,
            s@.length == length,
            s@.skip == 1,
            s@.record,
            !s@.reverse,
            !s@.cycle,
    {
        let mut samples: Vec<T> = Vec::with_capacity(length);
        while samples.len() < length
            invariant
                samples.len() <= length,
                forall|i: int| 0 <= i < samples.len() ==> samples@[i] == zero,
            decreases length - samples.len(),
        {
            samples.push(zero);
        }
        assert(samples@ =~= Seq::new(length as nat, |i: int| zero));
        Scope {
            samples,
            write_cursor: 0,
            samples_outdated: false,
            length,
            skip: 1,
            record: true,
            reverse: false,
            cycle: false,
        }
    }

    /// Takes one buffer of incoming frames, already scaled by the gain.
    /// While recording, the frames whose index is a multiple of `skip` are
    /// written into the ring as `record_run` says; in any case the ring is
    /// marked as changed since it was last drawn.
    ///
    /// The cursor only counts up, one per written frame, so it fits in a
    /// `usize` when it has room for one more per frame, or when a cursor
    /// below `skip` times the ring's length never reaches `usize::MAX`.
    pub fn record_frames(&mut self, input: &[T])
        requires
            old(self)@.wf(),
            old(self)@.record && input@.len() > 0 ==> old(self)@.skip > 0,
            old(self)@.record ==> (old(self)@.write_cursor + input@.len() <= usize::MAX
                || old(self)@.skip * old(self)@.samples.len() <= usize::MAX),
        ensures
            final(self)@.wf(),
            final(self)@ == old(self)@.recorded(input@),
    {
        if self.record {
            let c = record_into(self.write_cursor, &mut self.samples, input, self.skip);
            self.write_cursor = c;
        }
        self.samples_outdated = true;
    }

    /// The samples as the trace draws them, `self@.trace()`; a scope that
    /// does not cycle restarts its cursor first when it has run past the ring.
    pub fn trace(&mut self) -> (out: Vec<T>)
        requires
            old(self)@.wf(),
            !old(self)@.cycle ==> old(self)@.skip > 0,
        ensures
            out@ == old(self)@.trace(),
            final(self)@ == (ScopeView { write_cursor: old(self)@.traced_cursor(), ..old(self)@ }),
    {
        let len = self.samples.len();
        let mut k: usize = 0;
        if !self.cycle {
            if self.write_cursor / self.skip >= len {
                self.write_cursor = 0;
            }
            k = self.write_cursor / self.skip;
        }
        let ghost v = old(self)@;
        assert(k == v.trace_start());
        assert(k <= len);
        let ghost ordered = rotated(v.samples, k as int);
        let mut out: Vec<T> = Vec::with_capacity(len);
        let mut t: usize = 0;
        while t < len
            invariant
                t <= len,
                len == self.samples@.len(),
                self.samples@ == v.samples,
                self.reverse == v.reverse,
                k <= len,
                ordered == rotated(v.samples, k as int),
                out@.len() == t,
                forall|j: int|
                    0 <= j < t ==> out@[j] == (if v.reverse {
                        ordered[len - 1 - j]
                    } else {
                        ordered[j]
                    }),
            decreases len - t,
        {
            let pos = if self.reverse { len - 1 - t } else { t };
            let idx = if pos < len - k { k + pos } else { pos - (len - k) };
            out.push(self.samples[idx]);
            t = t + 1;
        }
        proof {
            if v.reverse {
                assert(out@ =~= ordered.reverse());
            } else {
                assert(out@ =~= ordered);
            }
        }
        out
    }

    /// Reports whether the ring changed since this was last asked, and
    /// clears that mark.
    pub fn take_outdated(&mut self) -> (was: bool)
        ensures
            was == old(self)@.samples_outdated,
            final(self)@ == (ScopeView { samples_outdated: false, ..old(self)@ }),
    {
        let was = self.samples_outdated;
        self.samples_outdated = false;
        was
    }

    /// Turns recording on or off.
    pub fn set_record(&mut self, record: bool)
        ensures
            final(self)@ == (ScopeView { record, ..old(self)@ }),
    {
        self.record = record;
    }

    /// Sets how many incoming frames share one slot of the ring.
    pub fn set_skip(&mut self, skip: usize)
        ensures
            final(self)@ == (ScopeView { skip: skip as nat, ..old(self)@ }),
    {
        self.skip = skip;
    }

    /// Sets whether the trace is drawn back to front.
    pub fn set_reverse(&mut self, reverse: bool)
        ensures
            final(self)@ == (ScopeView { reverse, ..old(self)@ }),
    {
        self.reverse = reverse;
    }

    /// Sets whether the trace is drawn from the start of the ring rather
    /// than from its oldest sample.
    pub fn set_cycle(&mut self, cycle: bool)
        ensures
            final(self)@ == (ScopeView { cycle, ..old(self)@ }),
    {
        self.cycle = cycle;
    }

    /// Gives the ring `length` slots: it keeps its first `length` samples,
    /// and new slots hold `zero`. The cursor is left as it was.
    pub fn set_length(&mut self, length: usize, zero: T)
        ensures
            final(self)@.wf(),
            final(self)@.samples.len() == length,
            forall|i: int|
                0 <= i < length && i < old(self)@.samples.len() ==> #[trigger] final(self)@.samples[i]
                    == old(self)@.samples[i],
            forall|i: int|
                old(self)@.samples.len() <= i < length ==> #[trigger] final(self)@.samples[i] == zero,
            final(self)@ == (ScopeView {
                samples: resized(old(self)@.samples, length as nat, zero),
                length: length as nat,
                ..old(self)@
            }),
    {
        self.length = length;
        resize_ring(&mut self.samples, length, zero);
    }

    /// The samples of the ring, slot by slot.
    pub fn samples(&self) -> (s: &[T])
        ensures
            s@ == self@.samples,
    {
        self.samples.as_slice()
    }

    /// The cursor of the next write.
    pub fn write_cursor(&self) -> (c: usize)
        ensures
            c == self@.write_cursor,
    {
        self.write_cursor
    }

    /// Whether the ring changed since it was last drawn.
    pub fn samples_outdated(&self) -> (b: bool)
        ensures
            b == self@.samples_outdated,
    {
        self.samples_outdated
    }

    /// The number of slots last asked for.
    pub fn length(&self) -> (n: usize)
        ensures
            n == self@.length,
    {
        self.length
    }

    /// How many incoming frames share one slot.
    pub fn skip(&self) -> (n: usize)
        ensures
            n == self@.skip,
    {
        self.skip
    }

    /// Whether incoming frames are recorded.
    pub fn record(&self) -> (b: bool)
        ensures
            b == self@.record,
    {
        self.record
    }

    /// Whether the trace is drawn back to front.
    pub fn reverse(&self) -> (b: bool)
        ensures
            b == self@.reverse,
    {
        self.reverse
    }

    /// Whether the trace is drawn from the start of the ring.
    pub fn cycle(&self) -> (b: bool)
        ensures
            b == self@.cycle,
    {
        self.cycle
    }
}

} // verus!
