use vstd::prelude::*;

verus! {

/// How many points the spectrum is taken over: two to the tenth.
pub const SPECTRUM_POINTS: usize = 1024;

/// `n` values read round the ring `samples` from its first slot on, or `n`
/// times `zero` when the ring is empty.
pub open spec fn cycled<T>(samples: Seq<T>, n: nat, zero: T) -> Seq<T> {
    Seq::new(n, |i: int| if samples.len() > 0 { samples[i % (samples.len() as int)] } else { zero })
}

/// The input of the spectrum: `n` values read round the ring, starting over
/// at its first slot each time its end is reached; `zero` everywhere when the
/// ring is empty.
pub fn spectrum_input<T: Copy>(samples: &[T], n: usize, zero: T) -> (out: Vec<T>)
    ensures
        out@.len() == n,
        forall|i: int|
            0 <= i < n && samples@.len() > 0 ==> #[trigger] out@[i] == samples@[i % (samples@.len() as int)],
        forall|i: int| 0 <= i < n && samples@.len() == 0 ==> #[trigger] out@[i] == zero,
        out@ == cycled(samples@, n as nat, zero),
{
    let len = samples.len();
    let mut out: Vec<T> = Vec::with_capacity(n);
    let mut i: usize = 0;
    while i < n
        invariant
            i <= n,
            len == samples@.len(),
            out@ == cycled(samples@, i as nat, zero),
        decreases n - i,
    {
        let v = if len > 0 { samples[i % len] } else { zero };
        out.push(v);
        i = i + 1;
        assert(out@ =~= cycled(samples@, i as nat, zero));
    }
    out
}

/// The bins of a spectrum of real input that are drawn: the first half,
/// up to but not including the bin of half the rate.
pub fn lower_half<T>(bins: Vec<T>) -> (out: Vec<T>)
    ensures
        out@ == bins@.take((bins@.len() / 2) as int),
{
    let mut out = bins;
    let half = out.len() / 2;
    out.truncate(half);
    out
}

} // verus!
