//! Sample arithmetic of the audio path: folding interleaved channels into
//! one. (The audio devices and the echo canceller are driven by the caller.)
use vstd::prelude::*;

verus! {

/// Sum of a run of samples.
pub open spec fn sample_sum(s: Seq<i16>) -> int
    decreases s.len(),
{
    if s.len() == 0 {
        0
    } else {
        sample_sum(s.drop_last()) + s.last()
    }
}

/// Integer division rounding toward zero, as Rust's `/` does.
pub open spec fn div_toward_zero(a: int, b: int) -> int {
    if a >= 0 {
        a / b
    } else {
        -((-a) / b)
    }
}

/// Number of frames of `len` interleaved samples with `c` channels (the last
/// frame may be short).
pub open spec fn frame_count(len: int, c: int) -> int {
    (len + c - 1) / c
}

/// Samples of frame `i`.
pub open spec fn frame_of(data: Seq<i16>, c: int, i: int) -> Seq<i16> {
    let end = if (i + 1) * c < data.len() { (i + 1) * c } else { data.len() as int };
    data.subrange(i * c, end)
}

/// Mono samples of interleaved `data` with `c` channels: each frame's sum
/// divided by the channel count (rounding toward zero); one channel is kept
/// as it is.
pub open spec fn downmixed(data: Seq<i16>, c: int) -> Seq<i16> {
    if c == 1 {
        data
    } else {
        Seq::new(
            frame_count(data.len() as int, c) as nat,
            |i: int| div_toward_zero(sample_sum(frame_of(data, c, i)), c) as i16,
        )
    }
}

proof fn lemma_sum_bounds(s: Seq<i16>)
    ensures
        -32768 * s.len() <= sample_sum(s) <= 32767 * s.len(),
    decreases s.len(),
{
    if s.len() > 0 {
        lemma_sum_bounds(s.drop_last());
    }
}

proof fn lemma_average_fits(sum: int, n: int, c: int)
    requires
        1 <= n <= c,
        -32768 * n <= sum <= 32767 * n,
    ensures
        -32768 <= div_toward_zero(sum, c) <= 32767,
{
    if sum >= 0 {
        assert(sum / c <= 32767) by (nonlinear_arith)
            requires
                0 <= sum <= 32767 * n,
                1 <= n <= c,
        ;
    } else {
        assert((-sum) / c <= 32768) by (nonlinear_arith)
            requires
                0 < -sum <= 32768 * n,
                1 <= n <= c,
        ;
    }
}

/// Downmix multi-channel 16-bit samples to mono by averaging each frame.
pub fn downmix_i16(data: &[i16], channels: usize) -> (r: Vec<i16>)
    requires
        1 <= channels,
    ensures
        r@ == downmixed(data@, channels as int),
{
    if channels == 1 {
        let mut out: Vec<i16> = Vec::new();
        let mut k: usize = 0;
        while k < data.len()
            invariant
                k <= data@.len(),
                out@ == data@.take(k as int),
            decreases data@.len() - k,
        {
            out.push(data[k]);
            k = k + 1;
            assert(out@ =~= data@.take(k as int));
        }
        assert(data@.take(data@.len() as int) =~= data@);
        return out;
    }
    let ghost c = channels as int;
    let mut out: Vec<i16> = Vec::new();
    let mut i: usize = 0;
    let mut start: usize = 0;
    proof {
        if data@.len() > 0 {
            assert((data@.len() + c - 1) / c >= 1) by (nonlinear_arith)
                requires
                    data@.len() >= 1,
                    c >= 2,
            ;
        } else {
            assert((c - 1) / c == 0) by (nonlinear_arith)
                requires
                    c >= 2,
            ;
        }
    }
    while start < data.len()
        invariant
            2 <= channels,
            c == channels,
            start < data@.len() ==> start == i * c,
            start <= data@.len(),
            start < data@.len() ==> i < frame_count(data@.len() as int, c),
            start >= data@.len() ==> i == frame_count(data@.len() as int, c),
            out@.len() == i,
            forall|j: int| 0 <= j < i ==> #[trigger] out@[j] == div_toward_zero(sample_sum(frame_of(data@, c, j)), c) as i16,
        decreases data@.len() - start,
    {
        let end = if data.len() - start > channels {
            start + channels
        } else {
            data.len()
        };
        let ghost frame = data@.subrange(start as int, end as int);
        proof {
            assert(frame == frame_of(data@, c, i as int)) by {
                assert((i + 1) * c == start + c) by (nonlinear_arith)
                    requires
                        start == i * c,
                ;
            }
        }
        let mut sum: i128 = 0;
        let mut k: usize = start;
        while k < end
            invariant
                start <= k <= end <= data@.len(),
                frame == data@.subrange(start as int, end as int),
                sum == sample_sum(data@.subrange(start as int, k as int)),
                -32768 * (k - start) <= sum <= 32767 * (k - start),
            decreases end - k,
        {
            proof {
                assert(data@.subrange(start as int, k + 1).drop_last() =~= data@.subrange(start as int, k as int));
            }
            sum = sum + data[k] as i128;
            k = k + 1;
        }
        proof {
            assert(data@.subrange(start as int, end as int) =~= frame);
            lemma_sum_bounds(frame);
            lemma_average_fits(sum as int, (end - start) as int, c);
        }
        let avg: i128 = if sum >= 0 {
            sum / (channels as i128)
        } else {
            let m = (0 - sum) / (channels as i128);
            0 - m
        };
        out.push(avg as i16);
        proof {
            assert(frame_count(data@.len() as int, c) == (data@.len() + c - 1) / c);
            assert((i + 1) * c == i * c + c) by (nonlinear_arith);
            assert(i < data@.len()) by (nonlinear_arith)
                requires
                    i * c < data@.len(),
                    c >= 2,
            ;
            if end < data.len() {
                assert(i + 1 < frame_count(data@.len() as int, c)) by (nonlinear_arith)
                    requires
                        (i + 1) * c < data@.len(),
                        c >= 2,
                ;
            } else {
                assert(i + 1 == frame_count(data@.len() as int, c)) by (nonlinear_arith)
                    requires
                        i * c < data@.len() <= (i + 1) * c,
                        c >= 2,
                ;
            }
        }
        i = i + 1;
        start = end;
    }
    assert(out@ =~= downmixed(data@, c));
    out
}

} // verus!
