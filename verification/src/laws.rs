use vstd::prelude::*;
use vstd::arithmetic::div_mod::lemma_fundamental_div_mod;
use vstd::arithmetic::div_mod::lemma_fundamental_div_mod_converse;
use crate::ring::record_run;
use crate::ring::restart;
use crate::ring::rotated;
use crate::ring::ScopeView;
use crate::ring::resized;
use crate::spectrum::cycled;

verus! {

/// Going back `d` slots, `0 <= d <= len`, round a ring of `len` slots.
proof fn lemma_mod_back(x: int, d: int, len: int)
    requires
        len > 0,
        0 <= d <= len,
        x >= d,
    ensures
        (x - d) % len == if x % len >= d { x % len - d } else { x % len - d + len },
{
    lemma_fundamental_div_mod(x, len);
    let q = x / len;
    let r = x % len;
    assert(len * q == q * len) by (nonlinear_arith);
    if r >= d {
        lemma_fundamental_div_mod_converse(x - d, len, q, r - d);
    } else {
        assert((q - 1) * len == q * len - len) by (nonlinear_arith);
        lemma_fundamental_div_mod_converse(x - d, len, q - 1, r - d + len);
    }
}

/// Going forward one slot round a ring of `len` slots.
proof fn lemma_mod_next(x: int, len: int)
    requires
        len > 0,
        x >= 0,
    ensures
        (x + 1) % len == if x % len + 1 == len { 0 } else { x % len + 1 },
{
    lemma_mod_back(x + 1, 1, len);
    lemma_fundamental_div_mod(x + 1, len);
}

/// The frame written `back` writes before the latest one of `count` writes
/// that began at slot `start` of a ring of `len` slots.
pub open spec fn back_slot(start: int, count: int, back: int, len: int) -> int {
    (start + count - 1 - back) % len
}

/// The ring holds, `back` writes before the latest, the frame that came in
/// `back` frames before the last of the first `count` frames of `input`.
pub open spec fn holds_frame<T>(buf: Seq<T>, input: Seq<T>, start: int, count: int, back: int) -> bool {
    buf[back_slot(start, count, back, buf.len() as int)] == input[count - 1 - back]
}

/// With one frame per slot the ring is written slot after slot, round and
/// round, and keeps the latest frames, as many as it has slots.
proof fn lemma_run_keeps_latest<T>(cursor: nat, buf: Seq<T>, input: Seq<T>, i: nat)
    requires
        buf.len() > 0,
        i <= input.len(),
    ensures
        ({
            let len = buf.len() as int;
            let start = restart(cursor, 1, buf.len()) as int;
            let run = record_run(cursor, buf, input, 1, i);
            &&& run.1.len() == len
            &&& restart(run.0, 1, buf.len()) == (start + i) % len
            &&& forall|back: int|
                0 <= back < i && back < len ==> #[trigger] holds_frame(run.1, input, start, i as int, back)
        }),
    decreases i,
{
    let len = buf.len() as int;
    let start = restart(cursor, 1, buf.len()) as int;
    assert(start < len);
    if i == 0 {
        lemma_fundamental_div_mod_converse(start, len, 0, start);
    } else {
        let prev = (i - 1) as nat;
        lemma_run_keeps_latest(cursor, buf, input, prev);
        let before = record_run(cursor, buf, input, 1, prev);
        let c = restart(before.0, 1, buf.len());
        assert((i - 1) % 1 == 0);
        assert(c == (start + prev) % len);
        assert(c / 1 == c);
        let run = record_run(cursor, buf, input, 1, i);
        assert(run.0 == c + 1);
        assert(run.1 == before.1.update(c as int, input[i - 1]));
        lemma_mod_next(start + prev, len);
        assert(restart(run.0, 1, buf.len()) == (start + i) % len);
        assert forall|back: int| 0 <= back < i && back < len implies #[trigger] holds_frame(
            run.1,
            input,
            start,
            i as int,
            back,
        ) by {
            if back == 0 {
                assert(back_slot(start, i as int, 0, len) == c);
            } else {
                lemma_mod_back(start + prev, back, len);
                assert(back_slot(start, i as int, back, len) != c);
                assert(holds_frame(before.1, input, start, prev as int, back - 1));
                assert(back_slot(start, prev as int, back - 1, len) == back_slot(start, i as int, back, len));
            }
        }
    }
}


/// What comes in is what is drawn: a scope that records, keeps one frame per
/// slot and does not cycle ends its trace with the latest frames in the order
/// they came, as many as the ring has slots, after any buffer of frames.
/// Drawn back to front, the trace begins with them, newest first.
pub proof fn law_trace_shows_latest<T>(v: ScopeView<T>, input: Seq<T>)
    requires
        v.wf(),
        v.record,
        v.skip == 1,
        !v.cycle,
        v.samples.len() > 0,
    ensures
        ({
            let w = v.recorded(input);
            let len = v.samples.len() as int;
            let m = if input.len() < len { input.len() as int } else { len };
            let latest = input.subrange(input.len() - m, input.len() as int);
            &&& w.trace().len() == len
            &&& !v.reverse ==> w.trace().subrange(len - m, len) == latest
            &&& v.reverse ==> w.trace().subrange(0, m) == latest.reverse()
        }),
{
    let n = input.len();
    let len = v.samples.len() as int;
    let m = if n < len { n as int } else { len };
    let start = restart(v.write_cursor, 1, v.samples.len()) as int;
    lemma_run_keeps_latest(v.write_cursor, v.samples, input, n);
    let w = v.recorded(input);
    let run = record_run(v.write_cursor, v.samples, input, 1, n);
    assert(w.samples == run.1);
    assert(w.write_cursor == run.0);
    let k = w.trace_start() as int;
    assert(k == (start + n) % len);
    assert(0 <= k < len);
    let ordered = rotated(w.samples, k);
    assert(ordered.len() == len);
    assert forall|t: int| len - m <= t < len implies #[trigger] ordered[t] == input[t + n - len] by {
        let back = len - 1 - t;
        assert(holds_frame(run.1, input, start, n as int, back));
        lemma_mod_back(start + n, back + 1, len);
    }
    let latest = input.subrange(n - m, n as int);
    if v.reverse {
        assert(w.trace() == ordered.reverse());
        assert(w.trace().subrange(0, m) =~= latest.reverse());
    } else {
        assert(w.trace() == ordered);
        assert(w.trace().subrange(len - m, len) =~= latest);
    }
}


proof fn lemma_run_len<T>(cursor: nat, buf: Seq<T>, input: Seq<T>, skip: nat, n: nat)
    requires
        n > 0 ==> skip > 0,
    ensures
        record_run(cursor, buf, input, skip, n).1.len() == buf.len(),
    decreases n,
{
    if n > 0 {
        let prev = (n - 1) as nat;
        lemma_run_len(cursor, buf, input, skip, prev);
        let before = record_run(cursor, buf, input, skip, prev);
        let c = restart(before.0, skip, before.1.len());
        let slot = c / skip;
        if slot < before.1.len() {
            assert(before.1.update(slot as int, input[n - 1]).len() == before.1.len());
        }
    }
}

/// Every buffer of frames leaves the ring as long as it was and marks it as
/// changed; a scope that does not record keeps its ring and cursor as they
/// were.
pub proof fn law_recording_keeps_ring<T>(v: ScopeView<T>, input: Seq<T>)
    requires
        v.wf(),
        v.record && input.len() > 0 ==> v.skip > 0,
    ensures
        v.recorded(input).wf(),
        v.recorded(input).samples.len() == v.samples.len(),
        v.recorded(input).samples_outdated,
        !v.record ==> v.recorded(input).samples == v.samples && v.recorded(input).write_cursor
            == v.write_cursor,
{
    if v.record {
        lemma_run_len(v.write_cursor, v.samples, input, v.skip, input.len());
    }
}

/// The trace is the ring rearranged: as long as the ring, with each sample
/// as often as the ring holds it.
pub proof fn law_trace_rearranges_ring<T>(v: ScopeView<T>)
    requires
        v.wf(),
        !v.cycle ==> v.skip > 0,
    ensures
        v.trace().len() == v.samples.len(),
        v.trace().to_multiset() == v.samples.to_multiset(),
{
    let s = v.samples;
    let k = v.trace_start() as int;
    if !v.cycle {
        if v.write_cursor / v.skip < s.len() {
            assert(k == v.write_cursor / v.skip);
        } else {
            assert(k == 0);
        }
    }
    assert(0 <= k <= s.len());
    let ordered = rotated(s, k);
    let a = s.subrange(0, k);
    let b = s.subrange(k, s.len() as int);
    assert(s =~= a + b);
    vstd::seq_lib::lemma_multiset_commutative(b, a);
    vstd::seq_lib::lemma_multiset_commutative(a, b);
    assert(ordered.to_multiset() =~= s.to_multiset());
    if v.reverse {
        ordered.lemma_reverse_to_multiset();
    }
}

/// Drawing twice with no frames in between draws the same trace: the first
/// drawing leaves the cursor where the second one finds it.
pub proof fn law_trace_settles<T>(v: ScopeView<T>)
    requires
        v.wf(),
        !v.cycle ==> v.skip > 0,
    ensures
        ({
            let w = ScopeView { write_cursor: v.traced_cursor(), ..v };
            &&& w.traced_cursor() == w.write_cursor
            &&& w.trace() == v.trace()
        }),
{
    let w = ScopeView { write_cursor: v.traced_cursor(), ..v };
    if !v.cycle && v.write_cursor / v.skip >= v.samples.len() {
        assert(0nat / v.skip == 0);
    }
    assert(w.trace_start() == v.trace_start());
}


/// Resizing keeps the first samples, as many as fit, and fills every new
/// slot with `zero`.
pub proof fn law_resize_keeps_and_pads<T>(s: Seq<T>, n: nat, zero: T)
    ensures
        resized(s, n, zero).len() == n,
        forall|i: int| 0 <= i < n && i < s.len() ==> #[trigger] resized(s, n, zero)[i] == s[i],
        forall|i: int| s.len() <= i < n ==> #[trigger] resized(s, n, zero)[i] == zero,
{
}

/// The spectrum input reads the ring round from its first slot: value `i`
/// is slot `i` modulo the ring's length, and zero for an empty ring.
pub proof fn law_spectrum_input_reads_round<T>(samples: Seq<T>, n: nat, zero: T)
    ensures
        cycled(samples, n, zero).len() == n,
        forall|i: int|
            0 <= i < n && samples.len() > 0 ==> #[trigger] cycled(samples, n, zero)[i] == samples[i
                % (samples.len() as int)],
        forall|i: int| 0 <= i < n && samples.len() == 0 ==> #[trigger] cycled(samples, n, zero)[i] == zero,
        forall|i: int|
            0 <= i < n && i < samples.len() ==> #[trigger] cycled(samples, n, zero)[i] == samples[i],
{
    assert forall|i: int| 0 <= i < n && i < samples.len() implies #[trigger] cycled(samples, n, zero)[i]
        == samples[i] by {
        lemma_fundamental_div_mod_converse(i, samples.len() as int, 0, i);
    }
}

/// The trace does not depend on whether frames are being recorded.
pub proof fn law_trace_ignores_record<T>(v: ScopeView<T>, record: bool)
    ensures
        (ScopeView { record, ..v }).trace() == v.trace(),
{
}

/// A reversed trace is the unreversed trace read back to front, in every
/// state of the scope.
pub proof fn law_trace_reverse<T>(v: ScopeView<T>)
    ensures
        (ScopeView { reverse: true, ..v }).trace() == (ScopeView { reverse: false, ..v }).trace().reverse(),
        (ScopeView { reverse: false, ..v }).trace() == (ScopeView { reverse: true, ..v }).trace().reverse(),
{
    let f = ScopeView { reverse: false, ..v };
    assert(f.trace().reverse().reverse() =~= f.trace());
}

/// The trace reads the ring round from its start slot: the start of the ring
/// when cycling, else the slot of the next write (the cursor restarted when it
/// ran past the ring, divided by `skip`); position `t` holds slot `start + t`
/// modulo the length, or `start + len - 1 - t` when reversed.
pub proof fn law_trace_reads_ring<T>(v: ScopeView<T>)
    requires
        v.wf(),
        !v.cycle ==> v.skip > 0,
    ensures
        v.trace().len() == v.samples.len(),
        v.cycle ==> v.trace_start() == 0,
        !v.cycle ==> v.trace_start() == (if v.write_cursor / v.skip >= v.samples.len() {
            0
        } else {
            v.write_cursor / v.skip
        }),
        v.trace_start() <= v.samples.len(),
        v.samples.len() > 0 ==> v.trace_start() < v.samples.len(),
        forall|t: int|
            0 <= t < v.samples.len() ==> #[trigger] v.trace()[t] == v.samples[(v.trace_start() + (if v.reverse {
                v.samples.len() - 1 - t
            } else {
                t
            })) % (v.samples.len() as int)],
{
    let len = v.samples.len() as int;
    let k = v.trace_start() as int;
    if !v.cycle {
        if v.write_cursor / v.skip < v.samples.len() {
            assert(k == v.write_cursor / v.skip);
        } else {
            assert(0nat / v.skip == 0);
            assert(k == 0);
        }
    }
    assert(0 <= k <= len);
    if len > 0 {
        assert(k < len);
    }
    let ordered = rotated(v.samples, k);
    assert forall|t: int| 0 <= t < len implies #[trigger] v.trace()[t] == v.samples[(k + (if v.reverse {
        len - 1 - t
    } else {
        t
    })) % len] by {
        let p = if v.reverse { len - 1 - t } else { t };
        assert(0 <= p < len);
        if k + p < len {
            lemma_fundamental_div_mod_converse(k + p, len, 0, k + p);
            assert(ordered[p] == v.samples[k + p]);
        } else {
            lemma_fundamental_div_mod_converse(k + p, len, 1, k + p - len);
            assert(ordered[p] == v.samples[k + p - len]);
        }
        if v.reverse {
            assert(v.trace()[t] == ordered[p]);
        } else {
            assert(v.trace()[t] == ordered[p]);
        }
    }
    law_trace_rearranges_ring(v);
}

} // verus!
