//! The mixer: a fixed row of input strips summed onto one master bus.

use vstd::prelude::*;
use vstd::string::StringExecFns;
use crate::block::{blocks, clear, silence};
use crate::channel::{DEFAULT_MAX_GAIN, MixChannel, Strip, lemma_meter_stays_wf};
use crate::fixed::{ONE, div_toward_zero, sat_add, shape, shaped};
use crate::label::{channel_label, label_of};
use crate::rms::rms_of;

verus! {

/// Whether any strip of a row is soloed.
pub open spec fn any_solo(channels: Seq<Strip>) -> bool {
    exists|k: int| 0 <= k < channels.len() && (#[trigger] channels[k]).solo
}

/// Sample `i` of the bus once the first `upto` strips have added their part,
/// in the order of the row.
pub open spec fn bus_at(
    channels: Seq<Strip>,
    inputs: Seq<Seq<i32>>,
    solo: bool,
    upto: nat,
    i: int,
) -> i32
    decreases upto,
{
    if upto == 0 {
        0
    } else {
        channels[upto - 1].accumulate(
            solo,
            bus_at(channels, inputs, solo, (upto - 1) as nat, i),
            inputs[upto - 1][i],
        )
    }
}

/// A bus sample divided by the number of strips. A mixer without strips has
/// a silent bus, which stays as it is.
pub open spec fn normalized(b: i32, count: nat) -> i32 {
    if count > 0 {
        div_toward_zero(b as int, count as int) as i32
    } else {
        b
    }
}

/// The mathematical model of a mixer.
pub struct Console {
    /// The input strips, in their fixed order.
    pub channels: Seq<Strip>,
    /// The master strip.
    pub master: Strip,
    /// Divide the bus by the number of strips before the master gain.
    pub normalize: bool,
    /// The gain ceiling handed to every strip.
    pub max_gain: i32,
}

impl Console {
    /// No peak reading of any strip is negative.
    pub open spec fn wf(self) -> bool {
        &&& self.master.meter.wf()
        &&& forall|k: int| 0 <= k < self.channels.len() ==> (#[trigger] self.channels[k]).meter.wf()
    }

    /// A fresh mixer with `count` input strips.
    pub open spec fn fresh(count: nat) -> Console {
        Console {
            channels: Seq::new(
                count,
                |k: int| Strip { name: label_of((k + 1) as nat), ..Strip::fresh() },
            ),
            master: Strip { name: "Master"@, ..Strip::fresh() },
            normalize: false,
            max_gain: DEFAULT_MAX_GAIN,
        }
    }

    /// The bus of `len` samples after all strips have added their part.
    pub open spec fn bus(self, inputs: Seq<Seq<i32>>, len: nat) -> Seq<i32> {
        Seq::new(
            len,
            |i: int| bus_at(self.channels, inputs, any_solo(self.channels), self.channels.len(), i),
        )
    }

    /// What the master stage makes of one bus sample: normalization if it is
    /// switched on, then the master gain, then the master limiter.
    pub open spec fn master_emits(self, b: i32) -> i32 {
        self.master.emits(
            if self.normalize {
                normalized(b, self.channels.len())
            } else {
                b
            },
        )
    }

    /// The block of `len` samples that the mixer puts out. A muted master puts
    /// out silence.
    pub open spec fn output(self, inputs: Seq<Seq<i32>>, len: nat) -> Seq<i32> {
        if self.master.mute {
            silence(len)
        } else {
            Seq::new(len, |i: int| self.master_emits(self.bus(inputs, len)[i]))
        }
    }

    /// The mixer once it has processed one block of `len` samples. A muted
    /// master leaves every strip and meter as it was. Else each strip has
    /// processed its own input, and the master has measured the level of the
    /// bus and metered what it put out.
    pub open spec fn after_mix(self, inputs: Seq<Seq<i32>>, len: nat) -> Console
        recommends
            len > 0 || self.master.mute,
    {
        if self.master.mute {
            self
        } else {
            Console {
                channels: Seq::new(
                    self.channels.len(),
                    |k: int| self.channels[k].after_block(inputs[k], any_solo(self.channels)),
                ),
                master: Strip {
                    rms: rms_of(self.bus(inputs, len)),
                    last: self.output(inputs, len).last(),
                    meter: self.master.meter.fed_all(self.output(inputs, len)),
                    ..self.master
                },
                ..self
            }
        }
    }
}

/// A mixer with a fixed row of input strips and one master strip.
pub struct FslcMix {
    pub(crate) channels: Vec<MixChannel>,
    /// The master strip.
    pub master: MixChannel,
    /// Divide the bus by the number of strips before the master gain.
    pub normalize: bool,
    /// The gain ceiling; `update_max_gain` hands it to every strip.
    pub max_gain: i32,
}

impl View for FslcMix {
    type V = Console;

    open(crate) spec fn view(&self) -> Console {
        Console {
            channels: Seq::new(self.channels@.len(), |k: int| self.channels@[k]@),
            master: self.master@,
            normalize: self.normalize,
            max_gain: self.max_gain,
        }
    }
}

/// Divides a bus sample by the number of strips.
pub fn normalize_sample(b: i32, count: usize) -> (r: i32)
    ensures
        r == normalized(b, count as nat),
{
    if count > 0 {
        let wide: i128 = b as i128;
        let divisor: i128 = count as i128;
        assert(-0x8000_0000 <= div_toward_zero(wide as int, divisor as int) <= 0x7fff_ffff)
            by (nonlinear_arith)
            requires
                -0x8000_0000 <= wide <= 0x7fff_ffff,
                divisor >= 1,
        ;
        (wide / divisor) as i32
    } else {
        b
    }
}

impl FslcMix {
    /// A mixer with `num_channels` input strips named `Channel 1`,
    /// `Channel 2`, ... and a master strip named `Master`.
    pub fn new(num_channels: u8) -> (r: Self)
        ensures
            r@ == Console::fresh(num_channels as nat),
            r@.wf(),
    {
        let mut channels: Vec<MixChannel> = Vec::new();
        let mut i: u8 = 0;
        while i < num_channels
            invariant
                i <= num_channels,
                channels@.len() == i,
                forall|k: int|
                    0 <= k < i ==> (#[trigger] channels@[k])@ == (Strip {
                        name: label_of((k + 1) as nat),
                        ..Strip::fresh()
                    }),
            decreases num_channels - i,
        {
            let mut channel: MixChannel = MixChannel::default();
            channel.channel_name = channel_label(i + 1);
            channels.push(channel);
            i = i + 1;
        }
        let mut master: MixChannel = MixChannel::default();
        master.channel_name = String::from_str("Master");
        let r = FslcMix { channels, master, normalize: false, max_gain: DEFAULT_MAX_GAIN };
        assert(r@.channels =~= Console::fresh(num_channels as nat).channels);
        r
    }

    /// Whether any input strip is soloed.
    pub fn any_solo(&self) -> (r: bool)
        ensures
            r == any_solo(self@.channels),
    {
        let n: usize = self.channels.len();
        let mut found: bool = false;
        let mut k: usize = 0;
        while k < n
            invariant
                n == self.channels@.len(),
                k <= n,
                found == (exists|j: int| 0 <= j < k && (#[trigger] self@.channels[j]).solo),
            decreases n - k,
        {
            assert(self@.channels[k as int] == self.channels@[k as int]@);
            found = self.channels[k].solo || found;
            k = k + 1;
        }
        found
    }

    /// Mixes one block: every strip processes its own input buffer and adds
    /// what it emits to the bus in `output`, then the master stage turns the
    /// bus into the output.
    pub fn mix(&mut self, inputs: Vec<&[i32]>, output: &mut [i32])
        requires
            inputs@.len() == old(self)@.channels.len(),
            forall|k: int|
                0 <= k < inputs@.len() ==> (#[trigger] inputs@[k])@.len() == old(output)@.len(),
            !old(self)@.master.mute ==> old(output)@.len() > 0,
        ensures
            final(output)@ == old(self)@.output(blocks(inputs@), old(output)@.len()),
            final(self)@ == old(self)@.after_mix(blocks(inputs@), old(output)@.len()),
            final(output)@.len() == old(output)@.len(),
            old(self)@.master.mute ==> final(self)@ == old(self)@ && forall|i: int|
                0 <= i < final(output)@.len() ==> #[trigger] final(output)@[i] == 0,
            old(self)@.master.limit ==> forall|i: int|
                0 <= i < final(output)@.len() ==> -ONE <= #[trigger] final(output)@[i] <= ONE,
            old(self)@.wf() ==> final(self)@.wf(),
    {
        let len: usize = output.len();
        let n: usize = inputs.len();
        let ghost before: Console = self@;
        let ghost ins: Seq<Seq<i32>> = blocks(inputs@);

        clear(output);
        if self.master.mute {
            return ;
        }
        let solo: bool = self.any_solo();

        let mut k: usize = 0;
        while k < n
            invariant
                n == inputs@.len(),
                n == self.channels@.len(),
                n == before.channels.len(),
                len == output@.len(),
                len > 0,
                k <= n,
                before == old(self)@,
                ins == blocks(inputs@),
                solo == any_solo(before.channels),
                forall|j: int| 0 <= j < n ==> (#[trigger] inputs@[j])@.len() == len,
                forall|j: int|
                    0 <= j < k ==> (#[trigger] self.channels@[j])@ == before.channels[j].after_block(
                        ins[j],
                        solo,
                    ),
                forall|j: int| k <= j < n ==> (#[trigger] self.channels@[j])@ == before.channels[j],
                forall|i: int|
                    0 <= i < len ==> #[trigger] output@[i] == bus_at(
                        before.channels,
                        ins,
                        solo,
                        k as nat,
                        i,
                    ),
                self.master@ == before.master,
                self.normalize == before.normalize,
                self.max_gain == before.max_gain,
            decreases n - k,
        {
            let input: &[i32] = inputs[k];
            self.channels[k].mix(input, output, solo);
            k = k + 1;
        }
        let ghost bus: Seq<i32> = output@;
        let ghost out: Seq<i32> = before.output(ins, len as nat);
        assert(bus =~= before.bus(ins, len as nat));

        self.master.rms(output);
        let mut i: usize = 0;
        while i < len
            invariant
                n == before.channels.len(),
                n == self.channels@.len(),
                len == output@.len(),
                len == bus.len(),
                i <= len,
                before == old(self)@,
                !before.master.mute,
                bus == before.bus(ins, len as nat),
                out == before.output(ins, len as nat),
                ins.len() == n,
                forall|j: int| 0 <= j < n ==> (#[trigger] ins[j]).len() == len,
                forall|j: int| 0 <= j < i ==> #[trigger] output@[j] == out[j],
                forall|j: int| i <= j < len ==> #[trigger] output@[j] == bus[j],
                forall|j: int|
                    0 <= j < n ==> (#[trigger] self.channels@[j])@ == before.channels[j].after_block(
                        ins[j],
                        solo,
                    ),
                self.master@ == (Strip {
                    rms: rms_of(bus),
                    meter: before.master.meter.fed_all(out.take(i as int)),
                    ..before.master
                }),
                self.normalize == before.normalize,
                self.max_gain == before.max_gain,
            decreases len - i,
        {
            let mut b: i32 = output[i];
            if self.normalize {
                b = normalize_sample(b, n);
            }
            let sample: i32 = shape(b, self.master.gain, self.master.limit);
            if sample > self.master.max {
                self.master.max = sample;
            }
            output[i] = sample;
            self.master.update_smoothed(sample);
            proof {
                assert(out.take(i + 1).drop_last() =~= out.take(i as int));
                assert(out.take(i + 1).last() == sample);
            }
            i = i + 1;
        }
        self.master.last = output[len - 1];
        proof {
            assert(out.take(len as int) =~= out);
            assert(output@ =~= out);
            assert(self@.channels =~= before.after_mix(ins, len as nat).channels);
            if before.wf() {
                lemma_mix_keeps_wf(before, ins, len as nat);
            }
        }
    }

    /// Hands the mixer's gain ceiling to every strip and to the master.
    pub fn update_max_gain(&mut self)
        ensures
            final(self)@ == (Console {
                channels: Seq::new(
                    old(self)@.channels.len(),
                    |k: int| Strip { max_gain: old(self)@.max_gain, ..old(self)@.channels[k] },
                ),
                master: Strip { max_gain: old(self)@.max_gain, ..old(self)@.master },
                ..old(self)@
            }),
    {
        let n: usize = self.channels.len();
        let mut k: usize = 0;
        while k < n
            invariant
                n == self.channels@.len(),
                n == old(self).channels@.len(),
                k <= n,
                forall|j: int|
                    0 <= j < k ==> (#[trigger] self.channels@[j])@ == (Strip {
                        max_gain: old(self).max_gain,
                        ..old(self).channels@[j]@
                    }),
                forall|j: int| k <= j < n ==> (#[trigger] self.channels@[j])@ == old(self).channels@[j]@,
                self.master@ == old(self).master@,
                self.normalize == old(self).normalize,
                self.max_gain == old(self).max_gain,
            decreases n - k,
        {
            self.channels[k].max_gain = self.max_gain;
            k = k + 1;
        }
        self.master.max_gain = self.max_gain;
        proof {
            assert(self@.channels =~= Seq::new(
                old(self)@.channels.len(),
                |k: int| Strip { max_gain: old(self)@.max_gain, ..old(self)@.channels[k] },
            ));
        }
    }

    /// The number of input strips. It never changes.
    pub fn channel_count(&self) -> (r: usize)
        ensures
            r == self@.channels.len(),
    {
        self.channels.len()
    }

    /// The input strip at `index`, if there is one.
    pub fn channel(&self, index: usize) -> (r: Option<&MixChannel>)
        ensures
            match r {
                Some(c) => index < self@.channels.len() && c@ == self@.channels[index as int],
                None => index >= self@.channels.len(),
            },
    {
        if index < self.channels.len() {
            Some(&self.channels[index])
        } else {
            None
        }
    }

    /// The input strip at `index`, for adjusting its controls, if there is one.
    pub fn channel_mut(&mut self, index: usize) -> (r: Option<&mut MixChannel>)
        ensures
            match r {
                Some(c) => {
                    &&& index < old(self)@.channels.len()
                    &&& c@ == old(self)@.channels[index as int]
                    &&& final(self)@ == (Console {
                        channels: old(self)@.channels.update(index as int, final(c)@),
                        ..old(self)@
                    })
                },
                None => index >= old(self)@.channels.len() && final(self)@ == old(self)@,
            },
    {
        if index < self.channels.len() {
            let c: &mut MixChannel = &mut self.channels[index];
            proof {
                assert(Seq::new(
                    old(self).channels@.len(),
                    |k: int| old(self).channels@.update(index as int, *final(c))[k]@,
                ) =~= old(self)@.channels.update(index as int, final(c)@));
            }
            Some(c)
        } else {
            None
        }
    }

    /// Clears the mute flag of every input strip.
    pub fn unmute_all(&mut self)
        ensures
            final(self)@ == (Console {
                channels: Seq::new(
                    old(self)@.channels.len(),
                    |k: int| Strip { mute: false, ..old(self)@.channels[k] },
                ),
                ..old(self)@
            }),
    {
        let n: usize = self.channels.len();
        let mut k: usize = 0;
        while k < n
            invariant
                n == self.channels@.len(),
                n == old(self).channels@.len(),
                k <= n,
                forall|j: int|
                    0 <= j < k ==> (#[trigger] self.channels@[j])@ == (Strip {
                        mute: false,
                        ..old(self).channels@[j]@
                    }),
                forall|j: int| k <= j < n ==> (#[trigger] self.channels@[j])@ == old(self).channels@[j]@,
                self.master@ == old(self).master@,
                self.normalize == old(self).normalize,
                self.max_gain == old(self).max_gain,
            decreases n - k,
        {
            self.channels[k].mute = false;
            k = k + 1;
        }
        proof {
            assert(self@.channels =~= Seq::new(
                old(self)@.channels.len(),
                |k: int| Strip { mute: false, ..old(self)@.channels[k] },
            ));
        }
    }

    /// Clears the solo flag of every input strip.
    pub fn unsolo_all(&mut self)
        ensures
            final(self)@ == (Console {
                channels: Seq::new(
                    old(self)@.channels.len(),
                    |k: int| Strip { solo: false, ..old(self)@.channels[k] },
                ),
                ..old(self)@
            }),
            !any_solo(final(self)@.channels),
    {
        let n: usize = self.channels.len();
        let mut k: usize = 0;
        while k < n
            invariant
                n == self.channels@.len(),
                n == old(self).channels@.len(),
                k <= n,
                forall|j: int|
                    0 <= j < k ==> (#[trigger] self.channels@[j])@ == (Strip {
                        solo: false,
                        ..old(self).channels@[j]@
                    }),
                forall|j: int| k <= j < n ==> (#[trigger] self.channels@[j])@ == old(self).channels@[j]@,
                self.master@ == old(self).master@,
                self.normalize == old(self).normalize,
                self.max_gain == old(self).max_gain,
            decreases n - k,
        {
            self.channels[k].solo = false;
            k = k + 1;
        }
        proof {
            assert(self@.channels =~= Seq::new(
                old(self)@.channels.len(),
                |k: int| Strip { solo: false, ..old(self)@.channels[k] },
            ));
        }
    }
}

/// Renders one block for a caller that may have failed to get hold of the
/// mixer: with the mixer it mixes, without it the block is silence.
pub fn render(mixer: Option<&mut FslcMix>, inputs: Vec<&[i32]>, output: &mut [i32])
    requires
        mixer matches Some(m) ==> {
            &&& inputs@.len() == m@.channels.len()
            &&& forall|k: int|
                0 <= k < inputs@.len() ==> (#[trigger] inputs@[k])@.len() == old(output)@.len()
            &&& !m@.master.mute ==> old(output)@.len() > 0
        },
    ensures
        mixer is None ==> final(output)@ == silence(old(output)@.len()),
        mixer matches Some(m) ==> {
            &&& final(output)@ == m@.output(blocks(inputs@), old(output)@.len())
            &&& final(m)@ == m@.after_mix(blocks(inputs@), old(output)@.len())
        },
{
    match mixer {
        Some(m) => {
            m.mix(inputs, output);
        },
        None => {
            clear(output);
        },
    }
}

/// Mixing a block never makes a peak reading negative.
pub proof fn lemma_mix_keeps_wf(c: Console, inputs: Seq<Seq<i32>>, len: nat)
    requires
        c.wf(),
    ensures
        c.after_mix(inputs, len).wf(),
{
    if !c.master.mute {
        let after = c.after_mix(inputs, len);
        lemma_meter_stays_wf(c.master.meter, c.output(inputs, len));
        assert forall|k: int| 0 <= k < after.channels.len() implies (#[trigger] after.channels[k]).meter.wf() by {
            assert(c.channels[k].meter.wf());
            lemma_meter_stays_wf(c.channels[k].meter, c.channels[k].emitted(inputs[k]));
        }
    }
}

/// Solo arbitration on the bus: while at least one strip of the row is
/// soloed, a strip that is not soloed leaves the bus as it found it, and a
/// soloed strip that is not muted adds its sample after gain and limiter.
/// Mute takes precedence: a muted strip leaves the bus as it found it, soloed
/// or not.
pub proof fn lemma_solo_arbitration_on_bus(
    channels: Seq<Strip>,
    inputs: Seq<Seq<i32>>,
    k: int,
    i: int,
)
    requires
        0 <= k < channels.len(),
        any_solo(channels),
    ensures
        !channels[k].solo || channels[k].mute ==> bus_at(
            channels,
            inputs,
            true,
            (k + 1) as nat,
            i,
        ) == bus_at(channels, inputs, true, k as nat, i),
        channels[k].solo && !channels[k].mute ==> bus_at(
            channels,
            inputs,
            true,
            (k + 1) as nat,
            i,
        ) == sat_add(
            bus_at(channels, inputs, true, k as nat, i),
            shaped(inputs[k][i], channels[k].gain, channels[k].limit),
        ),
{
}

/// Strips that are not audible add nothing to the bus: whatever their inputs
/// hold, the bus is the same. Two sets of inputs that agree at sample `i` on
/// every audible strip give the same bus sample.
pub proof fn lemma_bus_ignores_silenced(
    channels: Seq<Strip>,
    a: Seq<Seq<i32>>,
    b: Seq<Seq<i32>>,
    solo: bool,
    upto: nat,
    i: int,
)
    requires
        upto <= channels.len(),
        forall|k: int|
            0 <= k < upto && (#[trigger] channels[k]).audible(solo) ==> a[k][i] == b[k][i],
    ensures
        bus_at(channels, a, solo, upto, i) == bus_at(channels, b, solo, upto, i),
    decreases upto,
{
    if upto > 0 {
        lemma_bus_ignores_silenced(channels, a, b, solo, (upto - 1) as nat, i);
        assert(channels[upto - 1].audible(solo) ==> a[upto - 1][i] == b[upto - 1][i]);
    }
}

/// Where a single strip is audible, the bus carries exactly what that strip
/// emits; where none is, the bus is silent.
pub proof fn lemma_bus_of_one_strip(
    channels: Seq<Strip>,
    inputs: Seq<Seq<i32>>,
    solo: bool,
    upto: nat,
    only: int,
    i: int,
)
    requires
        upto <= channels.len(),
        forall|k: int| 0 <= k < upto && k != only ==> !(#[trigger] channels[k]).audible(solo),
    ensures
        bus_at(channels, inputs, solo, upto, i) == if 0 <= only < upto && channels[only].audible(
            solo,
        ) {
            channels[only].emits(inputs[only][i])
        } else {
            0
        },
    decreases upto,
{
    if upto > 0 {
        lemma_bus_of_one_strip(channels, inputs, solo, (upto - 1) as nat, only, i);
        if upto - 1 != only {
            assert(!channels[upto - 1].audible(solo));
        }
    }
}

/// What the first `upto` strips put on the bus at sample `i`, summed without
/// any bound.
pub open spec fn plain_sum(
    channels: Seq<Strip>,
    inputs: Seq<Seq<i32>>,
    solo: bool,
    upto: nat,
    i: int,
) -> int
    decreases upto,
{
    if upto == 0 {
        0
    } else {
        plain_sum(channels, inputs, solo, (upto - 1) as nat, i) + if channels[upto - 1].audible(
            solo,
        ) {
            channels[upto - 1].emits(inputs[upto - 1][i]) as int
        } else {
            0
        }
    }
}

/// As long as no running sum leaves the sample range, the bus is the plain
/// sum of what the audible strips emit.
pub proof fn lemma_bus_is_plain_sum(
    channels: Seq<Strip>,
    inputs: Seq<Seq<i32>>,
    solo: bool,
    upto: nat,
    i: int,
)
    requires
        upto <= channels.len(),
        forall|u: nat|
            u <= upto ==> i32::MIN <= #[trigger] plain_sum(channels, inputs, solo, u, i)
                <= i32::MAX,
    ensures
        bus_at(channels, inputs, solo, upto, i) == plain_sum(channels, inputs, solo, upto, i),
    decreases upto,
{
    if upto > 0 {
        lemma_bus_is_plain_sum(channels, inputs, solo, (upto - 1) as nat, i);
        assert(i32::MIN <= plain_sum(channels, inputs, solo, upto, i) <= i32::MAX);
    }
}

/// Where every strip is audible and emits the same sample `v`, the bus
/// carries `v` once per strip, as long as that sum fits a sample.
proof fn lemma_bus_uniform(
    channels: Seq<Strip>,
    inputs: Seq<Seq<i32>>,
    solo: bool,
    upto: nat,
    i: int,
    v: i32,
)
    requires
        upto <= channels.len(),
        forall|k: int|
            0 <= k < channels.len() ==> (#[trigger] channels[k]).audible(solo)
                && channels[k].emits(inputs[k][i]) == v,
        i32::MIN <= channels.len() * v <= i32::MAX,
    ensures
        bus_at(channels, inputs, solo, upto, i) == upto * v,
    decreases upto,
{
    if upto > 0 {
        let below = (upto - 1) as nat;
        lemma_bus_uniform(channels, inputs, solo, below, i, v);
        let n = channels.len();
        assert(channels[upto - 1].audible(solo));
        assert(-0x8000_0000 <= upto * v <= 0x7fff_ffff) by (nonlinear_arith)
            requires
                0 < upto <= n,
                -0x8000_0000 <= n * v <= 0x7fff_ffff,
        ;
        assert(upto * v == below * v + v) by (nonlinear_arith)
            requires
                upto == below + 1,
        ;
    } else {
        assert(upto * v == 0) by (nonlinear_arith)
            requires
                upto == 0,
        ;
    }
}

/// Normalization: where every one of the `N` strips is audible and emits the
/// same sample `v`, the normalized bus carries `v`, whatever `N` is, as long
/// as `N` times `v` fits a sample.
pub proof fn lemma_normalized_uniform(
    channels: Seq<Strip>,
    inputs: Seq<Seq<i32>>,
    solo: bool,
    i: int,
    v: i32,
)
    requires
        channels.len() > 0,
        forall|k: int|
            0 <= k < channels.len() ==> (#[trigger] channels[k]).audible(solo)
                && channels[k].emits(inputs[k][i]) == v,
        i32::MIN <= channels.len() * v <= i32::MAX,
    ensures
        normalized(bus_at(channels, inputs, solo, channels.len(), i), channels.len()) == v,
{
    let n = channels.len();
    lemma_bus_uniform(channels, inputs, solo, n, i, v);
    if v >= 0 {
        assert((n * v) / (n as int) == v) by (nonlinear_arith)
            requires
                n > 0,
        ;
        assert(n * v >= 0) by (nonlinear_arith)
            requires
                n > 0,
                v >= 0,
        ;
    } else {
        assert((-(n * v)) / (n as int) == -v) by (nonlinear_arith)
            requires
                n > 0,
        ;
        assert(n * v < 0) by (nonlinear_arith)
            requires
                n > 0,
                v < 0,
        ;
    }
}

} // verus!
