//! The mathematical model of the wire protocol: what each bit window, and
//! the whole 40-bit frame, decodes to for a given script of line levels,
//! together with how many samples are consumed and which delays are
//! performed before a run succeeds or aborts.

use crate::hal::rest_of;
use crate::signal::{DHT11ReadingError, Signal};
use vstd::arithmetic::power2::{lemma2_to64, lemma_pow2_strictly_increases, pow2};
use vstd::prelude::*;

verus! {

/// The outcome of the sample at position `i` of a level script; a position
/// past the script's end is a read the hardware fails.
pub open spec fn sample_at(lv: Seq<Option<Signal>>, i: int) -> Option<Signal> {
    if 0 <= i < lv.len() {
        lv[i]
    } else {
        None
    }
}

/// A script with its first `n` outcomes handed out (all of it when fewer
/// remain).
pub open spec fn consumed<T>(s: Seq<T>, n: int) -> Seq<T>
    decreases n,
{
    if n <= 0 {
        s
    } else {
        consumed(rest_of(s), n - 1)
    }
}

/// Sample `d` (0, 1 or 2) of bit window `j`: each window takes three
/// consecutive samples, at offsets 0 ms, +50 ms and +28 ms from its start.
pub open spec fn win_sample(lv: Seq<Option<Signal>>, j: int, d: int) -> Option<Signal> {
    sample_at(lv, 3 * j + d)
}

/// What bit window `j` decodes to: `(Low, High, Low)` is 0 and
/// `(Low, High, High)` is 1; any other triple aborts with exactly those
/// three samples, and a failed hardware read aborts on its own.
pub open spec fn win_res(lv: Seq<Option<Signal>>, j: int) -> Result<bool, DHT11ReadingError> {
    match (win_sample(lv, j, 0), win_sample(lv, j, 1), win_sample(lv, j, 2)) {
        (None, _, _) => Err(DHT11ReadingError::UnableToReadSignal),
        (Some(_), None, _) => Err(DHT11ReadingError::UnableToReadSignal),
        (Some(_), Some(_), None) => Err(DHT11ReadingError::UnableToReadSignal),
        (Some(a), Some(b), Some(c)) => {
            if a == Signal::Low && b == Signal::High && c == Signal::Low {
                Ok(false)
            } else if a == Signal::Low && b == Signal::High && c == Signal::High {
                Ok(true)
            } else {
                Err(DHT11ReadingError::BadSignalInterpretation((a, b, c)))
            }
        },
    }
}

/// How many samples window `j` consumes before it decodes or aborts.
pub open spec fn win_used(lv: Seq<Option<Signal>>, j: int) -> int {
    if win_sample(lv, j, 0) is None {
        1
    } else if win_sample(lv, j, 1) is None {
        2
    } else {
        3
    }
}

/// The delays performed inside window `j`: none before its first sample,
/// 50 ms before its second, 28 ms before its third.
pub open spec fn win_delays(lv: Seq<Option<Signal>>, j: int) -> Seq<u32> {
    if win_sample(lv, j, 0) is None {
        Seq::empty()
    } else if win_sample(lv, j, 1) is None {
        seq![50u32]
    } else {
        seq![50u32, 28u32]
    }
}

/// The decoded bit of window `j`, as 0 or 1.
pub open spec fn win_bit(lv: Seq<Option<Signal>>, j: int) -> nat {
    if win_res(lv, j) == Ok::<bool, DHT11ReadingError>(true) {
        1
    } else {
        0
    }
}

/// The outcome of the first `n` bit windows: `Ok` when every one decodes,
/// otherwise the abort of the first window that deviates.
pub open spec fn wins_res_upto(lv: Seq<Option<Signal>>, n: int) -> Result<(), DHT11ReadingError>
    decreases n,
{
    if n <= 0 {
        Ok(())
    } else {
        match wins_res_upto(lv, n - 1) {
            Err(e) => Err(e),
            Ok(_) => match win_res(lv, n - 1) {
                Ok(_) => Ok(()),
                Err(e) => Err(e),
            },
        }
    }
}

/// How many samples a run over the first `n` windows consumes, stopping at
/// the first window that aborts.
pub open spec fn wins_used_upto(lv: Seq<Option<Signal>>, n: int) -> int
    decreases n,
{
    if n <= 0 {
        0
    } else if wins_res_upto(lv, n - 1) is Err {
        wins_used_upto(lv, n - 1)
    } else {
        wins_used_upto(lv, n - 1) + win_used(lv, n - 1)
    }
}

/// The delays a run over the first `n` windows performs, stopping at the
/// first window that aborts.
pub open spec fn wins_delays_upto(lv: Seq<Option<Signal>>, n: int) -> Seq<u32>
    decreases n,
{
    if n <= 0 {
        Seq::empty()
    } else if wins_res_upto(lv, n - 1) is Err {
        wins_delays_upto(lv, n - 1)
    } else {
        wins_delays_upto(lv, n - 1) + win_delays(lv, n - 1)
    }
}

/// The value of the bits of windows `lo` (inclusive) to `hi` (exclusive),
/// most significant bit first.
pub open spec fn field_val(lv: Seq<Option<Signal>>, lo: int, hi: int) -> nat
    decreases hi - lo,
{
    if hi <= lo {
        0
    } else {
        field_val(lv, lo, hi - 1) * 2 + win_bit(lv, hi - 1)
    }
}

/// Handing out the first `n` outcomes of a script that holds at least `n`
/// is dropping its first `n` entries.
pub proof fn lemma_consumed_skip<T>(s: Seq<T>, n: int)
    requires
        0 <= n <= s.len(),
    ensures
        consumed(s, n) == s.skip(n),
    decreases n,
{
    if n == 0 {
        assert(s.skip(0) =~= s);
    } else {
        lemma_consumed_skip(s.skip(1), n - 1);
        assert(s.skip(1).skip(n - 1) =~= s.skip(n));
    }
}

/// Consuming one, two or three outcomes, spelt out for the handshake and
/// the bit windows.
pub proof fn lemma_consumed_few<T>(s: Seq<T>)
    ensures
        consumed(s, 1) == rest_of(s),
        consumed(s, 2) == rest_of(rest_of(s)),
        consumed(s, 3) == rest_of(rest_of(rest_of(s))),
{
    assert(consumed(rest_of(rest_of(rest_of(s))), 0) == rest_of(rest_of(rest_of(s))));
    assert(consumed(rest_of(rest_of(s)), 1) == rest_of(rest_of(rest_of(s))));
    assert(consumed(rest_of(s), 2) == rest_of(rest_of(rest_of(s))));
    assert(consumed(rest_of(rest_of(s)), 0) == rest_of(rest_of(s)));
    assert(consumed(rest_of(s), 1) == rest_of(rest_of(s)));
    assert(consumed(rest_of(s), 0) == rest_of(s));
}

/// Consuming `a + b` outcomes is consuming `a`, then `b`.
pub proof fn lemma_consumed_add<T>(s: Seq<T>, a: int, b: int)
    requires
        0 <= a,
        0 <= b,
    ensures
        consumed(s, a + b) == consumed(consumed(s, a), b),
    decreases a,
{
    if a > 0 {
        lemma_consumed_add(rest_of(s), a - 1, b);
    }
}

/// Samples of a script's tail are samples of the script, shifted.
pub proof fn lemma_sample_at_skip(lv: Seq<Option<Signal>>, m: int, i: int)
    requires
        0 <= m <= lv.len(),
        0 <= i,
    ensures
        sample_at(lv.skip(m), i) == sample_at(lv, m + i),
{
}

/// A whole window of a script's tail, cut at a window boundary, is the
/// correspondingly shifted window of the script itself.
pub proof fn lemma_win_shift(lv: Seq<Option<Signal>>, m: int, j: int)
    requires
        0 <= m,
        3 * m <= lv.len(),
        0 <= j,
    ensures
        win_res(lv.skip(3 * m), j) == win_res(lv, m + j),
        win_used(lv.skip(3 * m), j) == win_used(lv, m + j),
        win_delays(lv.skip(3 * m), j) == win_delays(lv, m + j),
        win_bit(lv.skip(3 * m), j) == win_bit(lv, m + j),
{
    lemma_sample_at_skip(lv, 3 * m, 3 * j);
    lemma_sample_at_skip(lv, 3 * m, 3 * j + 1);
    lemma_sample_at_skip(lv, 3 * m, 3 * j + 2);
}

/// A run whose first `n` windows all decode has consumed exactly `3 * n`
/// samples, so the script holds at least that many.
pub proof fn lemma_wins_ok_len(lv: Seq<Option<Signal>>, n: int)
    requires
        0 <= n,
        wins_res_upto(lv, n) is Ok,
    ensures
        3 * n <= lv.len(),
        wins_used_upto(lv, n) == 3 * n,
    decreases n,
{
    if n > 0 {
        lemma_wins_ok_len(lv, n - 1);
        assert(win_res(lv, n - 1) is Ok);
        assert(win_sample(lv, n - 1, 2) is Some);
        assert(3 * (n - 1) + 2 < lv.len());
    }
}

/// A run over the first `n` windows consumes between zero and `3 * n`
/// samples.
pub proof fn lemma_wins_used_bounds(lv: Seq<Option<Signal>>, n: int)
    requires
        0 <= n,
    ensures
        0 <= wins_used_upto(lv, n) <= 3 * n,
    decreases n,
{
    if n > 0 {
        lemma_wins_used_bounds(lv, n - 1);
    }
}

/// Once some window has aborted, looking at more windows changes neither
/// the outcome nor the samples consumed nor the delays performed.
pub proof fn lemma_wins_err_stable(lv: Seq<Option<Signal>>, m: int, n: int)
    requires
        0 <= m <= n,
        wins_res_upto(lv, m) is Err,
    ensures
        wins_res_upto(lv, n) == wins_res_upto(lv, m),
        wins_used_upto(lv, n) == wins_used_upto(lv, m),
        wins_delays_upto(lv, n) == wins_delays_upto(lv, m),
    decreases n - m,
{
    if n > m {
        lemma_wins_err_stable(lv, m, n - 1);
    }
}

/// A run over `m + j` windows whose first `m` all decode is the run over
/// those `m` followed by a run over `j` windows of the script's tail.
pub proof fn lemma_wins_shift(lv: Seq<Option<Signal>>, m: int, j: int)
    requires
        0 <= m,
        0 <= j,
        wins_res_upto(lv, m) is Ok,
    ensures
        3 * m <= lv.len(),
        wins_res_upto(lv, m + j) == wins_res_upto(lv.skip(3 * m), j),
        wins_used_upto(lv, m + j) == 3 * m + wins_used_upto(lv.skip(3 * m), j),
        wins_delays_upto(lv, m + j) == wins_delays_upto(lv, m) + wins_delays_upto(
            lv.skip(3 * m),
            j,
        ),
    decreases j,
{
    lemma_wins_ok_len(lv, m);
    if j == 0 {
        assert(wins_delays_upto(lv, m) + wins_delays_upto(lv.skip(3 * m), 0) =~= wins_delays_upto(
            lv,
            m,
        ));
    } else {
        lemma_wins_shift(lv, m, j - 1);
        lemma_win_shift(lv, m, j - 1);
        if wins_res_upto(lv.skip(3 * m), j - 1) is Ok {
            assert(wins_delays_upto(lv, m + j - 1) + win_delays(lv, m + j - 1) =~= wins_delays_upto(
                lv,
                m,
            ) + (wins_delays_upto(lv.skip(3 * m), j - 1) + win_delays(lv.skip(3 * m), j - 1)));
        }
    }
}

/// A field of a script's tail, cut at a window boundary, equals the
/// correspondingly shifted field of the script itself.
pub proof fn lemma_field_shift(lv: Seq<Option<Signal>>, m: int, lo: int, hi: int)
    requires
        0 <= m,
        3 * m <= lv.len(),
        0 <= lo <= hi,
    ensures
        field_val(lv.skip(3 * m), lo, hi) == field_val(lv, m + lo, m + hi),
    decreases hi - lo,
{
    if hi > lo {
        lemma_field_shift(lv, m, lo, hi - 1);
        lemma_win_shift(lv, m, hi - 1);
    }
}

/// A field of `hi - lo` bits is below two to that power.
pub proof fn lemma_field_val_bound(lv: Seq<Option<Signal>>, lo: int, hi: int)
    requires
        lo <= hi,
    ensures
        field_val(lv, lo, hi) < pow2((hi - lo) as nat),
    decreases hi - lo,
{
    if hi <= lo {
        lemma2_to64();
    } else {
        lemma_field_val_bound(lv, lo, hi - 1);
        assert(pow2((hi - 1 - lo) as nat) * 2 == pow2((hi - lo) as nat)) by {
            vstd::arithmetic::power2::lemma_pow2_unfold((hi - lo) as nat);
        };
    }
}

/// Sixteen-bit fields fit a `u16` and eight-bit fields a `u8`; stated at
/// the widths the frame uses so callers need no power-of-two reasoning.
pub proof fn lemma_field_val_width(lv: Seq<Option<Signal>>, lo: int, hi: int)
    requires
        lo <= hi,
        hi - lo <= 32,
    ensures
        hi - lo <= 8 ==> field_val(lv, lo, hi) < 256,
        hi - lo <= 16 ==> field_val(lv, lo, hi) < 65536,
        field_val(lv, lo, hi) < 0x1_0000_0000,
{
    lemma_field_val_bound(lv, lo, hi);
    lemma2_to64();
    if (hi - lo) < 8 {
        lemma_pow2_strictly_increases((hi - lo) as nat, 8);
    }
    if 8 < (hi - lo) && (hi - lo) < 16 {
        lemma_pow2_strictly_increases((hi - lo) as nat, 16);
    }
    if 16 < (hi - lo) && (hi - lo) < 32 {
        lemma_pow2_strictly_increases((hi - lo) as nat, 32);
    }
}

} // verus!
