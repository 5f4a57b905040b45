//! Audio samples as plain values, and the few sequence operations the stream buffers share.

use vstd::prelude::*;

verus! {

/// One audio sample: the bit pattern of its single-precision value (`f32::to_bits`).
///
/// The library moves samples around and never computes with them, so it holds the bits; the
/// arithmetic comes in from outside through [`crate::rt::ops::SampleOps`].
pub type Sample = u32;

/// The bit pattern of a silent sample.
pub const SILENCE: Sample = 0;

/// The newest (last) `n` elements of `s`, or all of `s` when it is shorter.
pub open spec fn newest<T>(s: Seq<T>, n: nat) -> Seq<T> {
    if s.len() <= n {
        s
    } else {
        s.skip(s.len() - n)
    }
}

/// The smaller of two lengths.
pub open spec fn min_len(a: nat, b: nat) -> nat {
    if a <= b {
        a
    } else {
        b
    }
}

/// The larger of two lengths.
pub open spec fn max_len(a: nat, b: nat) -> nat {
    if a <= b {
        b
    } else {
        a
    }
}

/// `n` silent samples.
pub open spec fn silence(n: nat) -> Seq<Sample> {
    Seq::new(n, |i: int| SILENCE)
}

/// `s` after `Vec::resize(n, SILENCE)`: cut off at `n`, or filled up to `n` with silence.
pub open spec fn resized(s: Seq<Sample>, n: nat) -> Seq<Sample> {
    if n <= s.len() {
        s.take(n as int)
    } else {
        s + silence((n - s.len()) as nat)
    }
}

/// `s` with its front overwritten by `front`.
pub open spec fn overwritten(s: Seq<Sample>, front: Seq<Sample>) -> Seq<Sample> {
    front + s.skip(front.len() as int)
}

/// `s` with the samples from `at` on replaced by `piece`, as far as it reaches.
pub open spec fn spliced(s: Seq<Sample>, at: nat, piece: Seq<Sample>) -> Seq<Sample> {
    Seq::new(
        s.len(),
        |i: int|
            if at <= i < at + piece.len() {
                piece[i - at]
            } else {
                s[i]
            },
    )
}

/// The sample sequences of a block of channels.
pub open spec fn planes(channels: Seq<Vec<Sample>>) -> Seq<Seq<Sample>> {
    Seq::new(channels.len(), |c: int| channels[c]@)
}

/// The smaller of two lengths.
pub fn smaller(a: usize, b: usize) -> (r: usize)
    ensures
        r as nat == min_len(a as nat, b as nat),
        r <= a && r <= b,
        r == a || r == b,
{
    if a <= b {
        a
    } else {
        b
    }
}

/// The larger of two lengths.
pub fn larger(a: usize, b: usize) -> (r: usize)
    ensures
        r as nat == max_len(a as nat, b as nat),
        r >= a && r >= b,
        r == a || r == b,
{
    if a <= b {
        b
    } else {
        a
    }
}

/// Resizes `v` to `n` samples, filling up with silence.
pub fn resize_silent(v: &mut Vec<Sample>, n: usize)
    ensures
        final(v)@ == resized(old(v)@, n as nat),
        final(v)@.len() == n,
        forall|i: int| 0 <= i < n && i < old(v)@.len() ==> #[trigger] final(v)@[i] == old(v)@[i],
        forall|i: int| old(v)@.len() <= i < n ==> #[trigger] final(v)@[i] == 0,
{
    let ghost before = v@;
    v.resize(n, SILENCE);
    assert(v@ =~= resized(before, n as nat));
}

/// Removes the first `n` samples of `v`, in place.
pub fn drop_front(v: &mut Vec<Sample>, n: usize)
    requires
        n <= old(v)@.len(),
    ensures
        final(v)@ == old(v)@.skip(n as int),
{
    let ghost before = v@;
    let rest: usize = v.len() - n;
    let mut i: usize = 0;
    while i < rest
        invariant
            i <= rest,
            rest + n == before.len(),
            v.len() == before.len(),
            forall|j: int| 0 <= j < i ==> v@[j] == before[j + n],
            forall|j: int| i <= j < before.len() ==> v@[j] == before[j],
        decreases rest - i,
    {
        let moved: Sample = v[i + n];
        v.set(i, moved);
        i += 1;
    }
    v.truncate(rest);
    assert(v@ =~= before.skip(n as int));
}

/// Copies `n` samples of `src`, from `from` on, over the front of `dst`.
pub fn copy_to_front(dst: &mut Vec<Sample>, src: &[Sample], from: usize, n: usize)
    requires
        from + n <= src@.len(),
        n <= old(dst)@.len(),
    ensures
        final(dst)@ == overwritten(old(dst)@, src@.subrange(from as int, from + n)),
        final(dst)@.len() == old(dst)@.len(),
        forall|i: int| 0 <= i < n ==> #[trigger] final(dst)@[i] == src@[from + i],
        forall|i: int| n <= i < old(dst)@.len() ==> #[trigger] final(dst)@[i] == old(dst)@[i],
{
    let ghost before = dst@;
    let mut i: usize = 0;
    while i < n
        invariant
            i <= n,
            from + n <= src.len(),
            n <= before.len(),
            dst@.len() == before.len(),
            forall|j: int| 0 <= j < i ==> dst@[j] == src@[from + j],
            forall|j: int| i <= j < before.len() ==> dst@[j] == before[j],
        decreases n - i,
    {
        dst.set(i, src[from + i]);
        i += 1;
    }
    assert(dst@ =~= overwritten(before, src@.subrange(from as int, from + n)));
}

/// Copies the first `n` samples of `src` over those of `dst` from `at` on.
pub fn copy_at(dst: &mut Vec<Sample>, at: usize, src: &[Sample], n: usize)
    requires
        n <= src@.len(),
        n > 0 ==> at + n <= old(dst)@.len(),
    ensures
        final(dst)@ == spliced(old(dst)@, at as nat, src@.take(n as int)),
        final(dst)@.len() == old(dst)@.len(),
        forall|i: int| at <= i < at + n ==> #[trigger] final(dst)@[i] == src@[i - at],
        forall|i: int|
            0 <= i < old(dst)@.len() && !(at <= i < at + n) ==> #[trigger] final(dst)@[i] == old(
                dst,
            )@[i],
{
    let ghost before = dst@;
    let mut i: usize = 0;
    while i < n
        invariant
            i <= n <= src@.len(),
            n > 0 ==> at + n <= dst.len(),
            dst@.len() == before.len(),
            forall|j: int| at <= j < at + i ==> dst@[j] == src@[j - at],
            forall|j: int| 0 <= j < before.len() && !(at <= j < at + i) ==> dst@[j] == before[j],
        decreases n - i,
    {
        dst.set(at + i, src[i]);
        i += 1;
    }
    assert(dst@ =~= spliced(before, at as nat, src@.take(n as int)));
}

} // verus!
