use vstd::prelude::*;
use crate::voices::VoiceRegistry;

verus! {

/// How long a burst of the single-voice mode sounds, in milliseconds.
pub const BURST_HOLD_MS: u64 = 50;

/// The sample clock: counts output frames, wrapping at the sample rate.
#[derive(Clone, Copy, Debug, PartialEq, Eq, Structural)]
pub struct SampleClock {
    pub t: u32,
    pub rate: u32,
}

/// The clock value of frame `f` (counted from zero) of a buffer whose
/// rendering starts with the clock at `t0`.
pub open spec fn clock_at(t0: int, f: int, rate: int) -> int {
    (t0 + f + 1) % rate
}

/// Number of frames in a buffer of `len` samples with `channels` per frame;
/// a short last frame counts.
pub open spec fn frame_count(len: int, channels: int) -> int {
    (len + channels - 1) / channels
}

impl SampleClock {
    /// A positive rate, and a clock value below it.
    pub open spec fn wf(self) -> bool {
        self.rate > 0 && self.t < self.rate
    }

    /// A clock at zero for a stream of `rate` frames per second.
    pub fn new(rate: u32) -> (r: SampleClock)
        requires
            rate > 0,
        ensures
            r.wf(),
            r.t == 0,
            r.rate == rate,
    {
        SampleClock { t: 0, rate }
    }

    /// Moves to the next frame: `t = (t + 1) mod rate`; returns the new value.
    pub fn advance(&mut self) -> (r: u32)
        requires
            old(self).wf(),
        ensures
            final(self).wf(),
            final(self).rate == old(self).rate,
            final(self).t == (old(self).t + 1) % (old(self).rate as int),
            r == final(self).t,
    {
        if self.t + 1 == self.rate {
            proof {
                vstd::arithmetic::div_mod::lemma_mod_self_0(self.rate as int);
            }
            self.t = 0;
        } else {
            proof {
                vstd::arithmetic::div_mod::lemma_small_mod((self.t + 1) as nat, self.rate as nat);
            }
            self.t = self.t + 1;
        }
        self.t
    }
}

proof fn lemma_clock_step(t0: int, f: int, rate: int)
    requires
        rate > 0,
        t0 >= 0,
        f >= 0,
    ensures
        ((t0 + f) % rate + 1) % rate == (t0 + f + 1) % rate,
{
    vstd::arithmetic::div_mod::lemma_add_mod_noop(t0 + f, 1, rate);
    vstd::arithmetic::div_mod::lemma_mod_twice(t0 + f, rate);
    vstd::arithmetic::div_mod::lemma_add_mod_noop((t0 + f) % rate, 1, rate);
}

proof fn lemma_frame_count(len: int, channels: int, f: int)
    requires
        channels > 0,
        len >= 0,
        f >= 0,
        f * channels >= len,
        f == 0 || (f - 1) * channels < len,
    ensures
        f == frame_count(len, channels),
{
    if f == 0 {
        assert(len == 0);
        assert((channels - 1) / channels == 0) by (nonlinear_arith)
            requires
                channels > 0,
        ;
    } else {
        let n = len + channels - 1;
        assert(f * channels <= n < f * channels + channels) by (nonlinear_arith)
            requires
                f * channels >= len,
                (f - 1) * channels < len,
                n == len + channels - 1,
        ;
        vstd::arithmetic::div_mod::lemma_fundamental_div_mod_converse(n, channels, f, n - f * channels);
    }
}

/// Fills an output buffer, frame by frame, for the voices that sound.
///
/// A frame is `channels` consecutive samples (the last may be short). For each
/// frame the clock advances once; every sample of the frame gets the same
/// value: `silence` when no voice sounds, otherwise `mix(t, keys)`, where `t`
/// is the clock after advancing and `keys` holds every sounding key once.
pub fn fill_buffer<T: Copy, F: Fn(u32, &Vec<usize>) -> T>(
    data: &mut [T],
    channels: usize,
    clock: &mut SampleClock,
    voices: &VoiceRegistry,
    silence: T,
    mix: F,
)
    requires
        channels > 0,
        old(clock).wf(),
        voices.wf(),
        forall|t: u32, keys: &Vec<usize>| mix.requires((t, keys)),
    ensures
        final(data)@.len() == old(data)@.len(),
        final(clock).wf(),
        final(clock).rate == old(clock).rate,
        final(clock).t == (old(clock).t + frame_count(old(data)@.len() as int, channels as int))
            % (old(clock).rate as int),
        voices@.len() == 0 ==> forall|j: int| 0 <= j < old(data)@.len() ==> #[trigger] final(data)@[j] == silence,
        voices@.len() > 0 ==> exists|keys: Vec<usize>|
            {
                &&& keys@.to_set() == voices@
                &&& keys@.no_duplicates()
                &&& forall|f: int, c: int|
                    0 <= f && 0 <= c < channels && f * channels + c < old(data)@.len() ==> mix.ensures(
                        (clock_at(old(clock).t as int, f, old(clock).rate as int) as u32, &keys),
                        #[trigger] final(data)@[f * channels + c],
                    )
            },
        forall|f: int, c: int|
            0 <= f && 0 <= c < channels && f * channels + c < old(data)@.len() ==> #[trigger] final(data)@[f * channels + c]
                == final(data)@[f * channels],
{
    let ghost t0 = clock.t as int;
    let ghost rate = clock.rate as int;
    let ghost len = data@.len() as int;
    let count = voices.len();
    let keys = if count > 0 {
        voices.snapshot()
    } else {
        Vec::new()
    };
    let mut start: usize = 0;
    let mut frame: usize = 0;
    proof {
        vstd::arithmetic::div_mod::lemma_small_mod(t0 as nat, rate as nat);
    }
    while start < data.len()
        invariant
            channels > 0,
            clock.wf(),
            clock.rate == rate,
            0 <= t0 < rate,
            data@.len() == len,
            start <= len,
            start == frame * channels || (start == len && frame * channels >= len),
            frame == 0 || (frame - 1) * channels < len,
            clock.t == (t0 + frame) % rate,
            count == voices@.len(),
            count > 0 ==> keys@.to_set() == voices@ && keys@.no_duplicates(),
            forall|t: u32, keys: &Vec<usize>| mix.requires((t, keys)),
            forall|f: int, c: int|
                0 <= f < frame && 0 <= c < channels && f * channels + c < len ==> {
                    &&& count == 0 ==> #[trigger] data@[f * channels + c] == silence
                    &&& count > 0 ==> mix.ensures(
                        (clock_at(t0, f, rate) as u32, &keys),
                        data@[f * channels + c],
                    )
                    &&& data@[f * channels + c] == data@[f * channels]
                },
        decreases len - start,
    {
        let t = clock.advance();
        proof {
            lemma_clock_step(t0, frame as int, rate);
        }
        let value = if count > 0 {
            mix(t, &keys)
        } else {
            silence
        };
        let end: usize = if data.len() - start < channels {
            data.len()
        } else {
            start + channels
        };
        let mut i: usize = start;
        while i < end
            invariant
                channels > 0,
                data@.len() == len,
                start == frame * channels,
                start < len,
                start <= i <= end <= len,
                end - start <= channels,
                end == len || end == start + channels,
                forall|f: int, c2: int|
                    0 <= f < frame && 0 <= c2 < channels && f * channels + c2 < len ==> {
                        &&& count == 0 ==> #[trigger] data@[f * channels + c2] == silence
                        &&& count > 0 ==> mix.ensures(
                            (clock_at(t0, f, rate) as u32, &keys),
                            data@[f * channels + c2],
                        )
                        &&& data@[f * channels + c2] == data@[f * channels]
                    },
                forall|c2: int| 0 <= c2 < i - start ==> #[trigger] data@[start + c2] == value,
            decreases end - i,
        {
            let ghost before = data@;
            data[i] = value;
            proof {
                assert forall|f: int, c2: int| 0 <= f < frame && 0 <= c2 < channels implies #[trigger] data@[f
                    * channels + c2] == before[f * channels + c2] by {
                    lemma_index_before(f, c2, channels as int, frame as int);
                }
                assert forall|f: int| 0 <= f < frame implies #[trigger] data@[f * channels]
                    == before[f * channels] by {
                    lemma_index_before(f, 0, channels as int, frame as int);
                }
                assert forall|c2: int| 0 <= c2 < i + 1 - start implies #[trigger] data@[start + c2] == value by {
                    if c2 < i - start {
                        assert(data@[start + c2] == before[start + c2]);
                    }
                }
            }
            i = i + 1;
        }
        let c: usize = end - start;
        assert(frame <= frame * channels) by (nonlinear_arith)
            requires
                channels > 0,
                frame >= 0,
        ;
        assert((frame + 1) * channels == frame * channels + channels) by (nonlinear_arith);
        proof {
            assert(c > 0);
            assert forall|f: int, c2: int|
                0 <= f < frame + 1 && 0 <= c2 < channels && f * channels + c2 < len implies {
                    &&& count == 0 ==> #[trigger] data@[f * channels + c2] == silence
                    &&& count > 0 ==> mix.ensures(
                        (clock_at(t0, f, rate) as u32, &keys),
                        data@[f * channels + c2],
                    )
                    &&& data@[f * channels + c2] == data@[f * channels]
                } by {
                if f == frame {
                    assert(c2 < c);
                    assert(data@[start + c2] == value);
                    assert(data@[start + 0] == value);
                }
            }
        }
        if c == channels {
            start = start + c;
        } else {
            start = data.len();
        }
        frame = frame + 1;
    }
    proof {
        lemma_frame_count(len, channels as int, frame as int);
        assert forall|f: int, c: int| 0 <= f && 0 <= c < channels && f * channels + c < len implies {
            &&& count == 0 ==> #[trigger] data@[f * channels + c] == silence
            &&& count > 0 ==> mix.ensures(
                (clock_at(t0, f, rate) as u32, &keys),
                data@[f * channels + c],
            )
            &&& data@[f * channels + c] == data@[f * channels]
        } by {
            if f >= frame {
                lemma_index_after(f, c, channels as int, frame as int);
            }
        }
        if count == 0 {
            assert forall|j: int| 0 <= j < len implies #[trigger] data@[j] == silence by {
                vstd::arithmetic::div_mod::lemma_fundamental_div_mod(j, channels as int);
                vstd::arithmetic::div_mod::lemma_mod_bound(j, channels as int);
                vstd::arithmetic::div_mod::lemma_div_pos_is_pos(j, channels as int);
                let f = j / channels as int;
                let c = j % channels as int;
                assert(f * channels + c == j) by (nonlinear_arith)
                    requires
                        j == channels * f + c,
                ;
                assert(data@[f * channels + c] == silence);
            }
        } else {
            assert(keys@.to_set() == voices@ && keys@.no_duplicates());
        }
    }
}

proof fn lemma_index_before(f: int, c: int, channels: int, frame: int)
    requires
        0 <= f < frame,
        0 <= c < channels,
    ensures
        f * channels + c < frame * channels,
{
    assert(f * channels + c < frame * channels) by (nonlinear_arith)
        requires
            0 <= f < frame,
            0 <= c < channels,
    ;
}

proof fn lemma_index_after(f: int, c: int, channels: int, frame: int)
    requires
        0 <= frame <= f,
        0 <= c,
        channels > 0,
    ensures
        f * channels + c >= frame * channels,
{
    assert(f * channels + c >= frame * channels) by (nonlinear_arith)
        requires
            0 <= frame <= f,
            0 <= c,
            channels > 0,
    ;
}

/// Frequency, in hertz, of the burst that input byte `b` triggers: `10 * b`.
pub fn burst_frequency(b: u8) -> (r: u32)
    ensures
        r == 10 * b,
{
    10 * (b as u32)
}

} // verus!
