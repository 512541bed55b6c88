//! One mixing strip: gain, mode flags and metering.
//!
//! The same type serves the input channels and the master bus.

use vstd::prelude::*;
use crate::block::silence;
use crate::fixed::{ONE, add_saturating, div_toward_zero, sat_add, shape, shaped};
use crate::rms::{block_rms, rms_of};

verus! {

/// Number of samples for which the smoothed peak is held before it decays.
pub const PEAK_HOLD_TIME: usize = 4000;

/// The smoothed peak decays by this ratio per sample once the hold has run out.
pub const DECAY_NUMERATOR: i32 = 9999;

/// See `DECAY_NUMERATOR`.
pub const DECAY_DENOMINATOR: i32 = 10000;

/// The gain ceiling of a fresh strip: 1.25.
pub const DEFAULT_MAX_GAIN: i32 = 0x0140_0000;

/// A level after one sample of decay.
pub open spec fn decayed(level: i32) -> i32 {
    div_toward_zero(level * DECAY_NUMERATOR, DECAY_DENOMINATOR as int) as i32
}

/// Lets a level decay by one sample.
pub fn decay(level: i32) -> (r: i32)
    ensures
        r == decayed(level),
{
    let numerator: i64 = DECAY_NUMERATOR as i64;
    let denominator: i64 = DECAY_DENOMINATOR as i64;
    assert(level * numerator == level * 9999) by (nonlinear_arith)
        requires
            numerator == 9999,
    ;
    let wide: i64 = level as i64 * numerator;
    (wide / denominator) as i32
}

/// The mathematical model of a strip's peak meters.
pub struct Meter {
    /// Largest sample seen since the last reset.
    pub peak: i32,
    /// Peak with hold and decay.
    pub smoothed: i32,
    /// Samples left before the smoothed peak starts to decay.
    pub hold: nat,
}

impl Meter {
    /// Both readings at rest.
    pub open spec fn zero() -> Meter {
        Meter { peak: 0, smoothed: 0, hold: 0 }
    }

    /// The readings are never negative.
    pub open spec fn wf(self) -> bool {
        self.peak >= 0 && self.smoothed >= 0
    }

    /// The smoothed peak takes one sample: a new peak arms the hold, else the
    /// hold runs down, else the level decays.
    pub open spec fn smoothed_by(self, sample: i32) -> Meter {
        if sample > self.smoothed {
            Meter { smoothed: sample, hold: PEAK_HOLD_TIME as nat, ..self }
        } else if self.hold > 0 {
            Meter { hold: (self.hold - 1) as nat, ..self }
        } else {
            Meter { smoothed: decayed(self.smoothed), ..self }
        }
    }

    /// Both readings take one sample. The peak keeps the signed maximum.
    pub open spec fn fed(self, sample: i32) -> Meter {
        Meter { peak: if sample > self.peak { sample } else { self.peak }, ..self }.smoothed_by(
            sample,
        )
    }

    /// Both readings take a run of samples, first to last.
    pub open spec fn fed_all(self, samples: Seq<i32>) -> Meter
        decreases samples.len(),
    {
        if samples.len() == 0 {
            self
        } else {
            self.fed_all(samples.drop_last()).fed(samples.last())
        }
    }
}

/// The mathematical model of a strip.
pub struct Strip {
    /// Linear gain applied to every sample, in Q7.24.
    pub gain: i32,
    /// Hard-limit the emitted samples to the interval from minus unity to unity.
    pub limit: bool,
    /// The strip is kept out of the mix.
    pub mute: bool,
    /// The strip is soloed.
    pub solo: bool,
    /// The strip's name.
    pub name: Seq<char>,
    /// The level display shows the RMS level in place of the smoothed peak.
    pub show_rms: bool,
    /// The ceiling that the gain control is held to.
    pub max_gain: i32,
    /// Whether any strip was soloed when this one last processed a block.
    pub others_solo: bool,
    /// RMS level of the last block's input.
    pub rms: nat,
    /// The sample emitted last.
    pub last: i32,
    /// The peak meters.
    pub meter: Meter,
}

impl Strip {
    /// A fresh strip.
    pub open spec fn fresh() -> Strip {
        Strip {
            gain: ONE,
            limit: false,
            mute: false,
            solo: false,
            name: "Channel"@,
            show_rms: false,
            max_gain: DEFAULT_MAX_GAIN,
            others_solo: false,
            rms: 0,
            last: 0,
            meter: Meter::zero(),
        }
    }

    /// Whether the strip reaches the bus: mute silences it whatever its solo
    /// flag says, and a solo anywhere silences every strip that is not soloed.
    pub open spec fn audible(self, any_solo: bool) -> bool {
        !(self.mute || (any_solo && !self.solo))
    }

    /// What the strip emits for one input sample.
    pub open spec fn emits(self, x: i32) -> i32 {
        shaped(x, self.gain, self.limit)
    }

    /// What the strip emits for a block of input.
    pub open spec fn emitted(self, input: Seq<i32>) -> Seq<i32> {
        Seq::new(input.len(), |i: int| self.emits(input[i]))
    }

    /// The bus sample `acc` once the strip has processed the input sample `x`.
    pub open spec fn accumulate(self, any_solo: bool, acc: i32, x: i32) -> i32 {
        if self.audible(any_solo) {
            sat_add(acc, self.emits(x))
        } else {
            acc
        }
    }

    /// The strip with its peak reading taken back to zero.
    pub open spec fn with_peak_reset(self) -> Strip {
        Strip { meter: Meter { peak: 0, ..self.meter }, ..self }
    }

    /// The strip once it has processed a non-empty block of input. The meters
    /// take what the strip emits whether or not it is audible.
    pub open spec fn after_block(self, input: Seq<i32>, any_solo: bool) -> Strip
        recommends
            input.len() > 0,
    {
        Strip {
            rms: rms_of(input),
            others_solo: any_solo,
            last: self.emitted(input).last(),
            meter: self.meter.fed_all(self.emitted(input)),
            ..self
        }
    }
}

/// One mixing strip.
pub struct MixChannel {
    /// Linear gain applied to every sample, in Q7.24.
    pub gain: i32,
    /// Hard-limit the emitted samples to the interval from minus unity to unity.
    pub limit: bool,
    /// Keep the strip out of the mix.
    pub mute: bool,
    /// Solo the strip.
    pub solo: bool,
    /// The strip's name.
    pub channel_name: String,
    /// Show the RMS level in place of the smoothed peak.
    pub show_rms: bool,
    pub(crate) max_gain: i32,
    pub(crate) others_solo: bool,
    pub(crate) last_rms: u32,
    pub(crate) max: i32,
    pub(crate) last_smoothed: i32,
    pub(crate) peak_hold_counter: usize,
    pub(crate) last: i32,
}

impl View for MixChannel {
    type V = Strip;

    open(crate) spec fn view(&self) -> Strip {
        Strip {
            gain: self.gain,
            limit: self.limit,
            mute: self.mute,
            solo: self.solo,
            name: self.channel_name@,
            show_rms: self.show_rms,
            max_gain: self.max_gain,
            others_solo: self.others_solo,
            rms: self.last_rms as nat,
            last: self.last,
            meter: Meter {
                peak: self.max,
                smoothed: self.last_smoothed,
                hold: self.peak_hold_counter as nat,
            },
        }
    }
}

impl Default for MixChannel {
    fn default() -> (r: Self)
        ensures
            r@ == Strip::fresh(),
    {
        MixChannel {
            gain: ONE,
            limit: false,
            mute: false,
            solo: false,
            channel_name: "Channel".to_owned(),
            show_rms: false,
            max_gain: DEFAULT_MAX_GAIN,
            others_solo: false,
            last_rms: 0,
            max: 0,
            last_smoothed: 0,
            peak_hold_counter: 0,
            last: 0,
        }
    }
}

impl MixChannel {
    /// Processes one block: meters what the strip emits for `input` and, if
    /// the strip is audible, adds it to the bus in `output`.
    pub fn mix(&mut self, input: &[i32], output: &mut [i32], any_solo: bool)
        requires
            input@.len() == old(output)@.len(),
            input@.len() > 0,
        ensures
            final(self)@ == old(self)@.after_block(input@, any_solo),
            final(output)@.len() == old(output)@.len(),
            forall|i: int|
                0 <= i < input@.len() ==> #[trigger] final(output)@[i] == old(self)@.accumulate(
                    any_solo,
                    old(output)@[i],
                    input@[i],
                ),
            !old(self)@.audible(any_solo) ==> final(output)@ == old(output)@,
            old(self)@.meter.wf() ==> final(self)@.meter.wf(),
    {
        self.others_solo = any_solo;
        self.rms(input);
        let n: usize = input.len();
        let audible: bool = self.audible(any_solo);
        let ghost emitted: Seq<i32> = old(self)@.emitted(input@);
        let mut i: usize = 0;
        while i < n
            invariant
                n == input@.len(),
                n == output@.len(),
                n == old(output)@.len(),
                i <= n,
                self.gain == old(self).gain,
                self.limit == old(self).limit,
                audible == old(self)@.audible(any_solo),
                emitted == old(self)@.emitted(input@),
                self@ == (Strip {
                    rms: rms_of(input@),
                    others_solo: any_solo,
                    last: if i == 0 { old(self)@.last } else { emitted[i - 1] },
                    meter: old(self)@.meter.fed_all(emitted.take(i as int)),
                    ..old(self)@
                }),
                old(self)@.meter.wf() ==> self@.meter.wf(),
                forall|j: int|
                    0 <= j < i ==> #[trigger] output@[j] == old(self)@.accumulate(
                        any_solo,
                        old(output)@[j],
                        input@[j],
                    ),
                forall|j: int| i <= j < n ==> #[trigger] output@[j] == old(output)@[j],
            decreases n - i,
        {
            let sample: i32 = shape(input[i], self.gain, self.limit);
            if sample > self.max {
                self.max = sample;
            }
            if audible {
                output[i] = add_saturating(output[i], sample);
            }
            self.last = sample;
            self.update_smoothed(sample);
            proof {
                assert(emitted.take(i + 1).drop_last() =~= emitted.take(i as int));
                assert(emitted.take(i + 1).last() == sample);
            }
            i = i + 1;
        }
        proof {
            assert(emitted.take(n as int) =~= emitted);
            if !audible {
                assert(output@ =~= old(output)@);
            }
        }
    }

    /// Whether the strip reaches the bus while `any_solo` tells whether any
    /// strip is soloed.
    pub fn audible(&self, any_solo: bool) -> (r: bool)
        ensures
            r == self@.audible(any_solo),
    {
        !(self.mute || (any_solo && !self.solo))
    }

    /// Measures the RMS level of a block.
    pub fn rms(&mut self, input: &[i32])
        requires
            input@.len() > 0,
        ensures
            final(self)@ == (Strip { rms: rms_of(input@), ..old(self)@ }),
    {
        self.last_rms = block_rms(input);
    }

    /// Feeds one emitted sample to the smoothed peak.
    pub fn update_smoothed(&mut self, peak: i32)
        ensures
            final(self)@ == (Strip { meter: old(self)@.meter.smoothed_by(peak), ..old(self)@ }),
            old(self)@.meter.wf() ==> final(self)@.meter.wf(),
    {
        if peak > self.last_smoothed {
            self.last_smoothed = peak;
            self.peak_hold_counter = PEAK_HOLD_TIME;
        } else if self.peak_hold_counter > 0 {
            self.peak_hold_counter = self.peak_hold_counter - 1;
        } else {
            self.last_smoothed = decay(self.last_smoothed);
        }
    }

    /// Takes the peak reading back to zero.
    pub fn reset_peak(&mut self)
        ensures
            final(self)@ == old(self)@.with_peak_reset(),
    {
        self.max = 0;
    }

    /// Takes the RMS reading back to zero.
    pub fn reset_rms(&mut self)
        ensures
            final(self)@ == (Strip { rms: 0, ..old(self)@ }),
    {
        self.last_rms = 0;
    }

    /// Takes the gain back to unity.
    pub fn reset_gain(&mut self)
        ensures
            final(self)@ == (Strip { gain: ONE, ..old(self)@ }),
    {
        self.gain = ONE;
    }

    /// Largest emitted sample since the last reset.
    pub fn instantaneous_peak(&self) -> (r: i32)
        ensures
            r == self@.meter.peak,
    {
        self.max
    }

    /// Peak with hold and decay.
    pub fn smoothed_peak(&self) -> (r: i32)
        ensures
            r == self@.meter.smoothed,
    {
        self.last_smoothed
    }

    /// Samples left before the smoothed peak starts to decay.
    pub fn hold_counter(&self) -> (r: usize)
        ensures
            r == self@.meter.hold,
    {
        self.peak_hold_counter
    }

    /// RMS level of the input of the last block.
    pub fn last_rms(&self) -> (r: u32)
        ensures
            r == self@.rms,
    {
        self.last_rms
    }

    /// The sample emitted last.
    pub fn last_sample(&self) -> (r: i32)
        ensures
            r == self@.last,
    {
        self.last
    }

    /// Whether any strip was soloed when this one last processed a block.
    pub fn others_solo(&self) -> (r: bool)
        ensures
            r == self@.others_solo,
    {
        self.others_solo
    }

    /// The ceiling that the gain control is held to.
    pub fn max_gain(&self) -> (r: i32)
        ensures
            r == self@.max_gain,
    {
        self.max_gain
    }
}

/// A level after `n` samples of decay.
pub open spec fn decayed_n(level: i32, n: nat) -> i32
    decreases n,
{
    if n == 0 {
        level
    } else {
        decayed(decayed_n(level, (n - 1) as nat))
    }
}

/// Decay never takes a level below zero, and never raises it.
pub proof fn lemma_decay_shrinks(level: i32, n: nat)
    requires
        level >= 0,
    ensures
        0 <= decayed_n(level, n) <= level,
    decreases n,
{
    if n > 0 {
        lemma_decay_shrinks(level, (n - 1) as nat);
    }
}

/// Mute takes precedence: a muted strip leaves the bus as it is, soloed or
/// not, whatever the other strips' solo flags are.
pub proof fn lemma_mute_wins(s: Strip, any_solo: bool, acc: i32, x: i32)
    requires
        s.mute,
    ensures
        !s.audible(any_solo),
        s.accumulate(any_solo, acc, x) == acc,
{
}

/// Solo arbitration: while any strip is soloed, a strip that is not soloed
/// leaves the bus as it is, and a soloed strip that is not muted adds its
/// sample after gain and limiter.
pub proof fn lemma_solo_arbitration(s: Strip, acc: i32, x: i32)
    ensures
        !s.solo ==> s.accumulate(true, acc, x) == acc,
        s.solo && !s.mute ==> s.accumulate(true, acc, x) == sat_add(
            acc,
            shaped(x, s.gain, s.limit),
        ),
{
}

/// With the limiter on, every sample that a strip emits lies between minus
/// unity and unity.
pub proof fn lemma_limited_strip_bound(s: Strip, x: i32)
    requires
        s.limit,
    ensures
        -ONE <= s.emits(x) <= ONE,
{
}

/// Meter readings that are not negative stay so, whatever is fed.
pub proof fn lemma_meter_stays_wf(m: Meter, samples: Seq<i32>)
    requires
        m.wf(),
    ensures
        m.fed_all(samples).wf(),
    decreases samples.len(),
{
    if samples.len() > 0 {
        lemma_meter_stays_wf(m, samples.drop_last());
    }
}

/// The peak never falls while samples are fed. It ends at the largest of
/// its old value and the samples, so it stays where it was exactly as long
/// as no sample exceeds it.
pub proof fn lemma_peak_is_running_maximum(m: Meter, samples: Seq<i32>)
    ensures
        m.fed_all(samples).peak >= m.peak,
        forall|i: int| 0 <= i < samples.len() ==> m.fed_all(samples).peak >= #[trigger] samples[i],
        m.fed_all(samples).peak == m.peak || exists|i: int|
            0 <= i < samples.len() && m.fed_all(samples).peak == #[trigger] samples[i],
        (forall|i: int| 0 <= i < samples.len() ==> #[trigger] samples[i] <= m.peak)
            <==> m.fed_all(samples).peak == m.peak,
    decreases samples.len(),
{
    if samples.len() > 0 {
        let init = samples.drop_last();
        lemma_peak_is_running_maximum(m, init);
        let mid = m.fed_all(init).peak;
        let end = m.fed_all(samples).peak;
        assert(end == if samples.last() > mid { samples.last() } else { mid });
        assert forall|i: int| 0 <= i < samples.len() implies end >= #[trigger] samples[i] by {
            if i < init.len() {
                assert(init[i] == samples[i]);
            }
        }
        if end != m.peak {
            if samples.last() > mid {
                assert(end == samples[samples.len() - 1]);
            } else {
                let i = choose|i: int| 0 <= i < init.len() && mid == #[trigger] init[i];
                assert(end == samples[i]);
            }
        }
        if forall|i: int| 0 <= i < samples.len() ==> #[trigger] samples[i] <= m.peak {
            assert forall|i: int| 0 <= i < init.len() implies #[trigger] init[i] <= m.peak by {
                assert(init[i] == samples[i]);
            }
            assert(samples[samples.len() - 1] <= m.peak);
        }
        if end == m.peak {
            assert forall|i: int| 0 <= i < samples.len() implies #[trigger] samples[i]
                <= m.peak by {}
        }
    }
}

/// Peak hold: a sample `p` above the smoothed peak sets it to `p`. Through
/// the next `PEAK_HOLD_TIME` samples of silence it stays exactly `p` while
/// the hold runs down by one per sample, and from then on each further
/// sample of silence lets it decay once.
pub proof fn lemma_hold_then_decay(m: Meter, p: i32, k: nat)
    requires
        m.wf(),
        p > m.smoothed,
    ensures
        m.fed(p).smoothed == p,
        m.fed(p).hold == PEAK_HOLD_TIME,
        k <= PEAK_HOLD_TIME ==> m.fed(p).fed_all(silence(k)).smoothed == p && m.fed(p).fed_all(
            silence(k),
        ).hold == PEAK_HOLD_TIME - k,
        k > PEAK_HOLD_TIME ==> m.fed(p).fed_all(silence(k)).smoothed == decayed_n(
            p,
            (k - PEAK_HOLD_TIME) as nat,
        ) && m.fed(p).fed_all(silence(k)).hold == 0,
    decreases k,
{
    if k > 0 {
        lemma_hold_then_decay(m, p, (k - 1) as nat);
        assert(silence(k).drop_last() =~= silence((k - 1) as nat));
        if k > PEAK_HOLD_TIME {
            lemma_decay_shrinks(p, (k - 1 - PEAK_HOLD_TIME) as nat);
        }
    }
}

/// Resetting the peak is idempotent, and a reset peak stays at zero through a
/// block exactly if the strip emits no sample above zero in it.
pub proof fn lemma_reset_peak_rests(s: Strip, input: Seq<i32>, any_solo: bool)
    requires
        input.len() > 0,
    ensures
        s.with_peak_reset().meter.peak == 0,
        s.with_peak_reset().with_peak_reset() == s.with_peak_reset(),
        s.with_peak_reset().after_block(input, any_solo).meter.peak == 0 <==> forall|i: int|
            0 <= i < input.len() ==> s.emits(#[trigger] input[i]) <= 0,
{
    let r = s.with_peak_reset();
    let emitted = r.emitted(input);
    lemma_peak_is_running_maximum(r.meter, emitted);
    if forall|i: int| 0 <= i < input.len() ==> s.emits(#[trigger] input[i]) <= 0 {
        assert forall|i: int| 0 <= i < emitted.len() implies #[trigger] emitted[i] <= 0 by {
            assert(emitted[i] == s.emits(input[i]));
        }
    }
    if r.after_block(input, any_solo).meter.peak == 0 {
        assert forall|i: int| 0 <= i < input.len() implies s.emits(#[trigger] input[i]) <= 0 by {
            assert(emitted[i] == s.emits(input[i]));
        }
    }
}

} // verus!
