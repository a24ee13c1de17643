//! The mix bus: per-deck ring buffers, effect slots and chains, per-deck
//! volume/gain/EQ/filter staging, and the crossfade to one output sample.
//!
//! Samples enter and leave in `[-UNIT, UNIT]`; every stage's arithmetic is
//! stated exactly over truncating fixed-point operations, and the final mix
//! is clipped back to full scale.

use vstd::prelude::*;

use crate::fx::{fx_next, fx_out, Effect, EffectV};
use crate::units::{abs_spec, clamp_spec, scale_by, scale_div, tdiv, AMP_CEIL, UNIT};

verus! {

/// Bounded FIFO of samples between one producer and the mix bus. Pushed
/// samples are clipped to full scale on entry.
pub struct RingBuffer {
    data: Vec<i64>,
    head: usize,
    capacity: usize,
}

impl View for RingBuffer {
    type V = Seq<i64>;

    closed spec fn view(&self) -> Seq<i64> {
        self.data@.skip(self.head as int)
    }
}

impl RingBuffer {
    pub closed spec fn wf(self) -> bool {
        &&& self.head <= self.data@.len()
        &&& 1 <= self.capacity
        &&& self@.len() <= self.capacity
        &&& forall|i: int| 0 <= i < self@.len() ==> -UNIT <= #[trigger] self@[i] <= UNIT
    }

    pub closed spec fn cap_spec(self) -> int {
        self.capacity as int
    }

    /// An empty buffer that will hold at most `capacity` samples.
    pub fn new(capacity: usize) -> (b: RingBuffer)
        requires
            1 <= capacity,
        ensures
            b.wf(),
            b@ =~= Seq::<i64>::empty(),
            b.cap_spec() == capacity,
    {
        RingBuffer { data: Vec::new(), head: 0, capacity }
    }

    pub fn len(&self) -> (n: usize)
        requires
            self.wf(),
        ensures
            n == self@.len(),
    {
        self.data.len() - self.head
    }

    /// Append one sample, clipped to full scale, unless the buffer is full.
    pub fn push(&mut self, s: i64) -> (accepted: bool)
        requires
            old(self).wf(),
        ensures
            final(self).wf(),
            final(self).cap_spec() == old(self).cap_spec(),
            accepted <==> old(self)@.len() < old(self).cap_spec(),
            accepted ==> final(self)@ == old(self)@.push(
                (clamp_spec(s as int, -UNIT as int, UNIT as int)) as i64,
            ),
            !accepted ==> final(self)@ == old(self)@,
    {
        if self.data.len() - self.head < self.capacity {
            let clipped = crate::units::clamp64(s, -UNIT, UNIT);
            self.data.push(clipped);
            proof {
                assert(self.data@.skip(self.head as int) =~= old(self)@.push(clipped));
            }
            true
        } else {
            false
        }
    }

    /// Remove and return the oldest sample, if any.
    pub fn pop(&mut self) -> (r: Option<i64>)
        requires
            old(self).wf(),
        ensures
            final(self).wf(),
            final(self).cap_spec() == old(self).cap_spec(),
            old(self)@.len() == 0 ==> r is None && final(self)@ == old(self)@,
            old(self)@.len() > 0 ==> r == Some(old(self)@[0]) && final(self)@ == old(self)@.skip(1),
            r matches Some(v) ==> -UNIT <= v <= UNIT,
    {
        if self.head < self.data.len() {
            let v = self.data[self.head];
            self.head = self.head + 1;
            if self.head == self.data.len() {
                self.data = Vec::new();
                self.head = 0;
            }
            proof {
                assert(final(self)@ =~= old(self)@.skip(1));
            }
            Some(v)
        } else {
            proof {
                assert(old(self)@.len() == 0);
            }
            None
        }
    }
}

/// One effect slot: an effect plus its routing controls.
pub struct FxSlot {
    pub enabled: bool,
    pub momentary: bool,
    /// Wet fraction in `[0, UNIT]`; dry input fills the rest.
    pub dry_wet: i64,
    pub fx: Effect,
}

/// Mathematical model of a slot.
pub struct FxSlotV {
    pub enabled: bool,
    pub momentary: bool,
    pub dry_wet: int,
    pub fx: EffectV,
}

impl View for FxSlot {
    type V = FxSlotV;

    open spec fn view(&self) -> FxSlotV {
        FxSlotV {
            enabled: self.enabled,
            momentary: self.momentary,
            dry_wet: self.dry_wet as int,
            fx: self.fx@,
        }
    }
}

impl FxSlot {
    pub open spec fn wf(self) -> bool {
        &&& 0 <= self.dry_wet <= UNIT
        &&& self.fx.wf()
    }

    /// A slot around `fx`, its wet fraction clamped silently.
    pub fn new(fx: Effect, dry_wet: i64, enabled: bool, momentary: bool) -> (s: FxSlot)
        requires
            fx.wf(),
        ensures
            s.wf(),
            s.fx == fx,
            s.enabled == enabled,
            s.momentary == momentary,
            s.dry_wet as int == clamp_spec(dry_wet as int, 0, UNIT as int),
    {
        FxSlot { enabled, momentary, dry_wet: crate::units::clamp64(dry_wet, 0, UNIT), fx }
    }
}

/// A sample as the queue stores it: clipped to full scale.
pub open spec fn clip_sample(s: i64) -> i64 {
    (clamp_spec(s as int, -UNIT as int, UNIT as int)) as i64
}

/// Whether a slot takes part in the chain.
pub open spec fn slot_engaged(s: FxSlotV) -> bool {
    s.enabled || s.momentary
}

/// What an engaged slot emits: the dry/wet blend of its input and its
/// effect's output, clipped to the chain's headroom. A disengaged slot passes
/// its input through.
pub open spec fn slot_out(s: FxSlotV, x: int) -> int {
    if slot_engaged(s) {
        clamp_spec(
            tdiv(x * (UNIT - s.dry_wet), UNIT as int) + tdiv(fx_out(s.fx, x) * s.dry_wet, UNIT as int),
            -AMP_CEIL as int,
            AMP_CEIL as int,
        )
    } else {
        x
    }
}

/// The state a slot is left in.
pub open spec fn slot_next(s: FxSlotV, x: int) -> FxSlotV {
    if slot_engaged(s) {
        FxSlotV { fx: fx_next(s.fx, x), ..s }
    } else {
        s
    }
}

/// The sample a whole chain emits for input `x`.
pub open spec fn chain_out(ss: Seq<FxSlotV>, x: int) -> int
    decreases ss.len(),
{
    if ss.len() == 0 {
        x
    } else {
        chain_out(ss.drop_first(), slot_out(ss.first(), x))
    }
}

/// The states a whole chain is left in.
pub open spec fn chain_next(ss: Seq<FxSlotV>, x: int) -> Seq<FxSlotV>
    decreases ss.len(),
{
    if ss.len() == 0 {
        Seq::empty()
    } else {
        seq![slot_next(ss.first(), x)] + chain_next(ss.drop_first(), slot_out(ss.first(), x))
    }
}

/// With every slot fully dry, the chain emits its input unchanged, whatever
/// the effects' internal states hold.
pub proof fn lemma_chain_dry_identity(ss: Seq<FxSlotV>, x: int)
    requires
        forall|i: int| 0 <= i < ss.len() ==> (#[trigger] ss[i]).dry_wet == 0,
        -AMP_CEIL <= x <= AMP_CEIL,
    ensures
        chain_out(ss, x) == x,
    decreases ss.len(),
{
    if ss.len() > 0 {
        let s = ss.first();
        assert(s == ss[0]);
        if slot_engaged(s) {
            crate::units::lemma_tdiv_multiple(x, UNIT as int);
            assert(fx_out(s.fx, x) * 0 == 0) by (nonlinear_arith);
            assert(slot_out(s, x) == x);
        }
        assert(forall|i: int|
            0 <= i < ss.drop_first().len() ==> (#[trigger] ss.drop_first()[i]).dry_wet == 0);
        lemma_chain_dry_identity(ss.drop_first(), slot_out(s, x));
    }
}

/// Run one sample through a chain of slots, updating each engaged slot's
/// effect in place.
pub fn apply_fx_chain(slots: &mut Vec<FxSlot>, x: i64) -> (out: i64)
    requires
        forall|i: int| 0 <= i < old(slots)@.len() ==> (#[trigger] old(slots)@[i]).wf(),
        -AMP_CEIL <= x <= AMP_CEIL,
    ensures
        forall|i: int| 0 <= i < final(slots)@.len() ==> (#[trigger] final(slots)@[i]).wf(),
        out == chain_out(old(slots)@.map_values(|s: FxSlot| s@), x as int),
        final(slots)@.map_values(|s: FxSlot| s@) == chain_next(
            old(slots)@.map_values(|s: FxSlot| s@),
            x as int,
        ),
        final(slots)@.len() == old(slots)@.len(),
        -AMP_CEIL <= out <= AMP_CEIL,
{
    let ghost orig = slots@.map_values(|s: FxSlot| s@);
    let n = slots.len();
    proof {
        assert(orig.skip(0) =~= orig);
        assert(slots@.map_values(|s: FxSlot| s@).take(0) =~= Seq::<FxSlotV>::empty());
        assert(Seq::<FxSlotV>::empty() + chain_next(orig, x as int) =~= chain_next(orig, x as int));
    }
    let mut cur = x;
    let mut i: usize = 0;
    while i < n
        invariant
            n == slots@.len() == orig.len(),
            i <= n,
            -AMP_CEIL <= cur <= AMP_CEIL,
            forall|j: int| 0 <= j < n ==> (#[trigger] slots@[j]).wf(),
            forall|j: int| i <= j < n ==> #[trigger] slots@[j]@ == orig[j],
            chain_out(orig, x as int) == chain_out(orig.skip(i as int), cur as int),
            chain_next(orig, x as int) == slots@.map_values(|s: FxSlot| s@).take(i as int)
                + chain_next(orig.skip(i as int), cur as int),
        decreases n - i,
    {
        let ghost pre_slots = slots@;
        let ghost suffix = orig.skip(i as int);
        proof {
            assert(suffix.first() == orig[i as int]);
            assert(suffix.drop_first() =~= orig.skip(i as int + 1));
            assert(slots@[i as int]@ == orig[i as int]);
        }
        let sl = &mut slots[i];
        let next: i64;
        if sl.enabled || sl.momentary {
            let wet = sl.fx.apply(cur);
            let dry_part = scale_by(cur, UNIT - sl.dry_wet);
            let wet_part = scale_by(wet, sl.dry_wet);
            next = crate::units::clamp64(dry_part + wet_part, -AMP_CEIL, AMP_CEIL);
        } else {
            next = cur;
        }
        proof {
            assert(slots@[i as int]@ == slot_next(orig[i as int], cur as int));
            assert(next as int == slot_out(orig[i as int], cur as int));
            assert(forall|j: int| 0 <= j < n && j != i ==> slots@[j] == pre_slots[j]);
            assert(slots@.map_values(|s: FxSlot| s@).take(i as int + 1) =~= pre_slots.map_values(
                |s: FxSlot| s@,
            ).take(i as int).push(slot_next(orig[i as int], cur as int)));
            assert(pre_slots.map_values(|s: FxSlot| s@).take(i as int) =~= slots@.map_values(
                |s: FxSlot| s@,
            ).take(i as int));
            assert(chain_next(suffix, cur as int) == seq![slot_next(orig[i as int], cur as int)]
                + chain_next(orig.skip(i as int + 1), next as int));
            assert(slots@.map_values(|s: FxSlot| s@).take(i as int).push(
                slot_next(orig[i as int], cur as int),
            ) + chain_next(orig.skip(i as int + 1), next as int) =~= slots@.map_values(
                |s: FxSlot| s@,
            ).take(i as int) + chain_next(suffix, cur as int));
        }
        cur = next;
        i += 1;
    }
    proof {
        assert(orig.skip(n as int) =~= Seq::<FxSlotV>::empty());
        assert(slots@.map_values(|s: FxSlot| s@).take(n as int) =~= slots@.map_values(
            |s: FxSlot| s@,
        ));
        assert(chain_next(orig.skip(n as int), cur as int) =~= Seq::<FxSlotV>::empty());
        assert(slots@.map_values(|s: FxSlot| s@) + Seq::<FxSlotV>::empty() =~= slots@.map_values(
            |s: FxSlot| s@,
        ));
    }
    cur
}

/// One deck's lane on the mix bus: its sample queue and channel controls.
pub struct SharedDeck {
    pub buffer: RingBuffer,
    /// Channel volume in `[0, UNIT]`.
    pub volume: i64,
    /// Channel gain in `[0, 2 * UNIT]`.
    pub gain: i64,
    /// Three band controls, each in `[0, 2 * UNIT]`.
    pub eq: Vec<i64>,
    /// Cut-only filter control in `[-UNIT, UNIT]`.
    pub filter: i64,
    pub fx_enabled: bool,
    pub fx_slots: Vec<FxSlot>,
}

/// The volume/gain/EQ/filter staging of one input sample, before effects.
pub open spec fn stage_spec(s: int, volume: int, gain: int, eq_sum: int, filter: int) -> int {
    let v1 = tdiv(s * volume, UNIT as int);
    let v2 = tdiv(v1 * gain, UNIT as int);
    let v3 = tdiv(v2 * eq_sum, 3 * UNIT as int);
    tdiv(v3 * (UNIT - abs_spec(filter)), UNIT as int)
}

impl SharedDeck {
    pub open spec fn wf(self) -> bool {
        &&& self.buffer.wf()
        &&& 0 <= self.volume <= UNIT
        &&& 0 <= self.gain <= 2 * UNIT
        &&& self.eq@.len() == 3
        &&& forall|i: int| 0 <= i < 3 ==> 0 <= #[trigger] self.eq@[i] <= 2 * UNIT
        &&& -UNIT <= self.filter <= UNIT
        &&& forall|i: int| 0 <= i < self.fx_slots@.len() ==> (#[trigger] self.fx_slots@[i]).wf()
    }

    pub open spec fn eq_sum(self) -> int {
        self.eq@[0] + self.eq@[1] + self.eq@[2]
    }

    /// What this lane emits for input sample `s`: the staged sample, run
    /// through the chain when effects are on.
    pub open spec fn lane_out_spec(self, s: int) -> int {
        let staged = stage_spec(s, self.volume as int, self.gain as int, self.eq_sum(), self.filter as int);
        if self.fx_enabled {
            chain_out(self.fx_slots@.map_values(|sl: FxSlot| sl@), staged)
        } else {
            staged
        }
    }

    /// A fresh lane at unit volume and gain, flat EQ, open filter, no
    /// effects.
    pub fn new(capacity: usize) -> (d: SharedDeck)
        requires
            1 <= capacity,
        ensures
            d.wf(),
            d.buffer@ =~= Seq::<i64>::empty(),
            d.buffer.cap_spec() == capacity,
            d.volume == UNIT,
            d.gain == UNIT,
            d.eq_sum() == 3 * UNIT,
            d.filter == 0,
            !d.fx_enabled,
            d.fx_slots@.len() == 0,
    {
        let mut eq: Vec<i64> = Vec::new();
        eq.push(UNIT);
        eq.push(UNIT);
        eq.push(UNIT);
        SharedDeck {
            buffer: RingBuffer::new(capacity),
            volume: UNIT,
            gain: UNIT,
            eq,
            filter: 0,
            fx_enabled: false,
            fx_slots: Vec::new(),
        }
    }

    /// Stage one input sample through volume, gain, EQ, filter and (when on)
    /// the effect chain.
    fn process(&mut self, s: i64) -> (out: i64)
        requires
            old(self).wf(),
            -UNIT <= s <= UNIT,
        ensures
            final(self).wf(),
            out == old(self).lane_out_spec(s as int),
            -AMP_CEIL <= out <= AMP_CEIL,
            final(self).buffer == old(self).buffer,
            final(self).volume == old(self).volume,
            final(self).gain == old(self).gain,
            final(self).eq == old(self).eq,
            final(self).filter == old(self).filter,
            final(self).fx_enabled == old(self).fx_enabled,
            old(self).fx_enabled ==> final(self).fx_slots@.map_values(|sl: FxSlot| sl@)
                == chain_next(
                old(self).fx_slots@.map_values(|sl: FxSlot| sl@),
                stage_spec(
                    s as int,
                    old(self).volume as int,
                    old(self).gain as int,
                    old(self).eq_sum(),
                    old(self).filter as int,
                ),
            ),
            !old(self).fx_enabled ==> final(self).fx_slots == old(self).fx_slots,
    {
        let v1 = scale_by(s, self.volume);
        let v2 = scale_by(v1, self.gain);
        let eq_sum = self.eq[0] + self.eq[1] + self.eq[2];
        proof {
            assert(0 <= eq_sum <= 393216);
            assert(-131072 <= v2 <= 131072);
            assert(-51539607552 <= v2 * eq_sum <= 51539607552) by (nonlinear_arith)
                requires
                    -131072 <= v2 <= 131072,
                    0 <= eq_sum <= 393216,
            ;
        }
        let v3 = scale_div(v2 * eq_sum, 3 * UNIT);
        proof {
            if v2 * eq_sum >= 0 {
                assert(v2 * eq_sum <= (4 * UNIT) * (3 * UNIT)) by (nonlinear_arith)
                    requires
                        -2 * UNIT <= v2 <= 2 * UNIT,
                        0 <= eq_sum <= 6 * UNIT,
                ;
                vstd::arithmetic::div_mod::lemma_div_is_ordered(
                    v2 * eq_sum,
                    (4 * UNIT) * (3 * UNIT),
                    3 * UNIT as int,
                );
                crate::units::lemma_tdiv_multiple(4 * UNIT as int, 3 * UNIT as int);
            } else {
                assert(-(v2 * eq_sum) <= (4 * UNIT) * (3 * UNIT)) by (nonlinear_arith)
                    requires
                        -2 * UNIT <= v2 <= 2 * UNIT,
                        0 <= eq_sum <= 6 * UNIT,
                ;
                vstd::arithmetic::div_mod::lemma_div_is_ordered(
                    -(v2 * eq_sum),
                    (4 * UNIT) * (3 * UNIT),
                    3 * UNIT as int,
                );
                crate::units::lemma_tdiv_multiple(4 * UNIT as int, 3 * UNIT as int);
            }
            assert(-4 * UNIT <= v3 <= 4 * UNIT);
        }
        let att = UNIT - if self.filter >= 0 {
            self.filter
        } else {
            -self.filter
        };
        let v4 = scale_by(v3, att);
        if self.fx_enabled {
            let out = apply_fx_chain(&mut self.fx_slots, v4);
            out
        } else {
            v4
        }
    }
}

/// The two-lane mix bus.
pub struct MixerEngine {
    pub deck1: SharedDeck,
    pub deck2: SharedDeck,
    /// Crossfader position in `[-UNIT, UNIT]`; negative favours the first
    /// lane.
    pub crossfader: i64,
    pub sample_rate: i64,
    pub channels: u16,
}

/// The sample at the head of a queue, or silence on underflow.
pub open spec fn head_or_silence(b: Seq<i64>) -> int {
    if b.len() == 0 {
        0
    } else {
        b[0] as int
    }
}

impl MixerEngine {
    pub open spec fn wf(self) -> bool {
        &&& self.deck1.wf()
        &&& self.deck2.wf()
        &&& -UNIT <= self.crossfader <= UNIT
        &&& 1 <= self.sample_rate <= 384000
    }

    /// The (unclipped) mix the bus owes for its current state: each lane's
    /// head sample staged, weighted linearly by the crossfader halves.
    pub open spec fn mixed_spec(self) -> int {
        let s1 = self.deck1.lane_out_spec(head_or_silence(self.deck1.buffer@));
        let s2 = self.deck2.lane_out_spec(head_or_silence(self.deck2.buffer@));
        let m1 = (UNIT - self.crossfader) / 2;
        let m2 = (UNIT + self.crossfader) / 2;
        tdiv(s1 * m1, UNIT as int) + tdiv(s2 * m2, UNIT as int)
    }

    /// A fresh bus with empty lanes and the crossfader centred.
    pub fn new(sample_rate: i64, channels: u16, capacity: usize) -> (m: MixerEngine)
        requires
            1 <= sample_rate <= 384000,
            1 <= capacity,
        ensures
            m.wf(),
            m.deck1.buffer@ =~= Seq::<i64>::empty(),
            m.deck2.buffer@ =~= Seq::<i64>::empty(),
            m.deck1.buffer.cap_spec() == capacity,
            m.deck2.buffer.cap_spec() == capacity,
            m.crossfader == 0,
            m.sample_rate == sample_rate,
            m.channels == channels,
            m.deck1.volume == UNIT && m.deck2.volume == UNIT,
            m.deck1.gain == UNIT && m.deck2.gain == UNIT,
            m.deck1.eq_sum() == 3 * UNIT && m.deck2.eq_sum() == 3 * UNIT,
            m.deck1.filter == 0 && m.deck2.filter == 0,
            !m.deck1.fx_enabled && !m.deck2.fx_enabled,
            m.deck1.fx_slots@.len() == 0 && m.deck2.fx_slots@.len() == 0,
    {
        MixerEngine {
            deck1: SharedDeck::new(capacity),
            deck2: SharedDeck::new(capacity),
            crossfader: 0,
            sample_rate,
            channels,
        }
    }

    /// Produce the next output sample: pop one sample from each lane
    /// (silence on underflow), stage and mix them, and clip to full scale.
    pub fn next_sample(&mut self) -> (out: i64)
        requires
            old(self).wf(),
        ensures
            final(self).wf(),
            out as int == clamp_spec(old(self).mixed_spec(), -UNIT as int, UNIT as int),
            final(self).deck1.buffer@ == if old(self).deck1.buffer@.len() == 0 {
                old(self).deck1.buffer@
            } else {
                old(self).deck1.buffer@.skip(1)
            },
            final(self).deck2.buffer@ == if old(self).deck2.buffer@.len() == 0 {
                old(self).deck2.buffer@
            } else {
                old(self).deck2.buffer@.skip(1)
            },
            final(self).crossfader == old(self).crossfader,
            final(self).sample_rate == old(self).sample_rate,
            final(self).channels == old(self).channels,
            final(self).deck1 == (SharedDeck {
                buffer: final(self).deck1.buffer,
                fx_slots: final(self).deck1.fx_slots,
                ..old(self).deck1
            }),
            final(self).deck2 == (SharedDeck {
                buffer: final(self).deck2.buffer,
                fx_slots: final(self).deck2.fx_slots,
                ..old(self).deck2
            }),
            old(self).deck1.fx_enabled ==> final(self).deck1.fx_slots@.map_values(
                |sl: FxSlot| sl@,
            ) == chain_next(
                old(self).deck1.fx_slots@.map_values(|sl: FxSlot| sl@),
                stage_spec(
                    head_or_silence(old(self).deck1.buffer@),
                    old(self).deck1.volume as int,
                    old(self).deck1.gain as int,
                    old(self).deck1.eq_sum(),
                    old(self).deck1.filter as int,
                ),
            ),
            !old(self).deck1.fx_enabled ==> final(self).deck1.fx_slots == old(
                self,
            ).deck1.fx_slots,
            !old(self).deck2.fx_enabled ==> final(self).deck2.fx_slots == old(
                self,
            ).deck2.fx_slots,
    {
        let s1 = match self.deck1.buffer.pop() {
            Some(v) => v,
            None => 0,
        };
        let s2 = match self.deck2.buffer.pop() {
            Some(v) => v,
            None => 0,
        };
        let d1 = self.deck1.process(s1);
        let d2 = self.deck2.process(s2);
        let m1 = (UNIT - self.crossfader) / 2;
        let m2 = (UNIT + self.crossfader) / 2;
        proof {
            vstd::arithmetic::div_mod::lemma_div_is_ordered(0, UNIT - self.crossfader, 2);
            vstd::arithmetic::div_mod::lemma_div_is_ordered(UNIT - self.crossfader, 2 * UNIT, 2);
            vstd::arithmetic::div_mod::lemma_div_is_ordered(0, UNIT + self.crossfader, 2);
            vstd::arithmetic::div_mod::lemma_div_is_ordered(UNIT + self.crossfader, 2 * UNIT, 2);
            assert(2 * UNIT as int / 2 == UNIT);
        }
        let p1 = scale_by(d1, m1);
        let p2 = scale_by(d2, m2);
        crate::units::clamp64(p1 + p2, -UNIT, UNIT)
    }

    /// Set a lane's volume, clamped into `[0, UNIT]` silently.
    pub fn set_volume(&mut self, deck: usize, v: i64)
        requires
            old(self).wf(),
            deck < 2,
        ensures
            final(self).wf(),
            final(self).lane(deck as int).volume as int == clamp_spec(v as int, 0, UNIT as int),
            final(self).lane(deck as int) == (SharedDeck {
                volume: final(self).lane(deck as int).volume,
                ..old(self).lane(deck as int)
            }),
            final(self).other_lane(deck as int) == old(self).other_lane(deck as int),
            final(self).crossfader == old(self).crossfader,
            final(self).sample_rate == old(self).sample_rate,
            final(self).channels == old(self).channels,
    {
        let c = crate::units::clamp64(v, 0, UNIT);
        if deck == 0 {
            self.deck1.volume = c;
        } else {
            self.deck2.volume = c;
        }
    }

    /// Set a lane's gain, clamped into `[0, 2 * UNIT]` silently.
    pub fn set_gain(&mut self, deck: usize, v: i64)
        requires
            old(self).wf(),
            deck < 2,
        ensures
            final(self).wf(),
            final(self).lane(deck as int).gain as int == clamp_spec(v as int, 0, 2 * UNIT as int),
            final(self).lane(deck as int) == (SharedDeck {
                gain: final(self).lane(deck as int).gain,
                ..old(self).lane(deck as int)
            }),
            final(self).other_lane(deck as int) == old(self).other_lane(deck as int),
            final(self).crossfader == old(self).crossfader,
            final(self).sample_rate == old(self).sample_rate,
            final(self).channels == old(self).channels,
    {
        let c = crate::units::clamp64(v, 0, 2 * UNIT);
        if deck == 0 {
            self.deck1.gain = c;
        } else {
            self.deck2.gain = c;
        }
    }

    /// Set one EQ band of a lane, clamped into `[0, 2 * UNIT]` silently.
    pub fn set_eq(&mut self, deck: usize, band: usize, v: i64)
        requires
            old(self).wf(),
            deck < 2,
            band < 3,
        ensures
            final(self).wf(),
            final(self).lane(deck as int).eq@ == old(self).lane(deck as int).eq@.update(
                band as int,
                (clamp_spec(v as int, 0, 2 * UNIT as int)) as i64,
            ),
            final(self).lane(deck as int) == (SharedDeck {
                eq: final(self).lane(deck as int).eq,
                ..old(self).lane(deck as int)
            }),
            final(self).other_lane(deck as int) == old(self).other_lane(deck as int),
            final(self).crossfader == old(self).crossfader,
            final(self).sample_rate == old(self).sample_rate,
            final(self).channels == old(self).channels,
    {
        let c = crate::units::clamp64(v, 0, 2 * UNIT);
        if deck == 0 {
            self.deck1.eq[band] = c;
        } else {
            self.deck2.eq[band] = c;
        }
    }

    /// Set a lane's cut filter, clamped into `[-UNIT, UNIT]` silently.
    pub fn set_filter(&mut self, deck: usize, v: i64)
        requires
            old(self).wf(),
            deck < 2,
        ensures
            final(self).wf(),
            final(self).lane(deck as int).filter as int == clamp_spec(
                v as int,
                -UNIT as int,
                UNIT as int,
            ),
            final(self).lane(deck as int) == (SharedDeck {
                filter: final(self).lane(deck as int).filter,
                ..old(self).lane(deck as int)
            }),
            final(self).other_lane(deck as int) == old(self).other_lane(deck as int),
            final(self).crossfader == old(self).crossfader,
            final(self).sample_rate == old(self).sample_rate,
            final(self).channels == old(self).channels,
    {
        let c = crate::units::clamp64(v, -UNIT, UNIT);
        if deck == 0 {
            self.deck1.filter = c;
        } else {
            self.deck2.filter = c;
        }
    }

    /// Move the crossfader, clamped into `[-UNIT, UNIT]` silently.
    pub fn set_crossfader(&mut self, v: i64)
        requires
            old(self).wf(),
        ensures
            final(self).wf(),
            final(self).crossfader as int == clamp_spec(v as int, -UNIT as int, UNIT as int),
            final(self).deck1 == old(self).deck1,
            final(self).deck2 == old(self).deck2,
            final(self).sample_rate == old(self).sample_rate,
            final(self).channels == old(self).channels,
    {
        self.crossfader = crate::units::clamp64(v, -UNIT, UNIT);
    }

    /// Switch a lane's effect chain on or off.
    pub fn set_fx_enabled(&mut self, deck: usize, on: bool)
        requires
            old(self).wf(),
            deck < 2,
        ensures
            final(self).wf(),
            final(self).lane(deck as int).fx_enabled == on,
            final(self).lane(deck as int) == (SharedDeck {
                fx_enabled: on,
                ..old(self).lane(deck as int)
            }),
            final(self).other_lane(deck as int) == old(self).other_lane(deck as int),
            final(self).crossfader == old(self).crossfader,
            final(self).sample_rate == old(self).sample_rate,
            final(self).channels == old(self).channels,
    {
        if deck == 0 {
            self.deck1.fx_enabled = on;
        } else {
            self.deck2.fx_enabled = on;
        }
    }

    /// Append an effect slot to a lane's chain.
    pub fn push_fx_slot(&mut self, deck: usize, slot: FxSlot)
        requires
            old(self).wf(),
            deck < 2,
            slot.wf(),
        ensures
            final(self).wf(),
            final(self).lane(deck as int).fx_slots@ == old(self).lane(deck as int).fx_slots@.push(
                slot,
            ),
            final(self).lane(deck as int) == (SharedDeck {
                fx_slots: final(self).lane(deck as int).fx_slots,
                ..old(self).lane(deck as int)
            }),
            final(self).other_lane(deck as int) == old(self).other_lane(deck as int),
            final(self).crossfader == old(self).crossfader,
            final(self).sample_rate == old(self).sample_rate,
            final(self).channels == old(self).channels,
    {
        if deck == 0 {
            self.deck1.fx_slots.push(slot);
        } else {
            self.deck2.fx_slots.push(slot);
        }
    }

    /// Replace one effect slot of a lane's chain.
    pub fn set_fx_slot(&mut self, deck: usize, index: usize, slot: FxSlot)
        requires
            old(self).wf(),
            deck < 2,
            index < old(self).lane(deck as int).fx_slots@.len(),
            slot.wf(),
        ensures
            final(self).wf(),
            final(self).lane(deck as int).fx_slots@ == old(self).lane(
                deck as int,
            ).fx_slots@.update(index as int, slot),
            final(self).lane(deck as int) == (SharedDeck {
                fx_slots: final(self).lane(deck as int).fx_slots,
                ..old(self).lane(deck as int)
            }),
            final(self).other_lane(deck as int) == old(self).other_lane(deck as int),
            final(self).crossfader == old(self).crossfader,
            final(self).sample_rate == old(self).sample_rate,
            final(self).channels == old(self).channels,
    {
        if deck == 0 {
            self.deck1.fx_slots[index] = slot;
        } else {
            self.deck2.fx_slots[index] = slot;
        }
    }

    /// Feed decoded samples into a lane's queue: every sample is appended
    /// in order (clipped to full scale) until the queue fills, and how many
    /// were taken is returned.
    pub fn push_samples(&mut self, deck: usize, samples: &Vec<i64>) -> (taken: usize)
        requires
            old(self).wf(),
            deck < 2,
        ensures
            final(self).wf(),
            taken as int == vstd::math::min(
                samples@.len() as int,
                old(self).lane(deck as int).buffer.cap_spec() - old(self).lane(
                    deck as int,
                ).buffer@.len(),
            ),
            final(self).lane(deck as int).buffer@.len() == old(self).lane(
                deck as int,
            ).buffer@.len() + taken,
            forall|j: int|
                0 <= j < old(self).lane(deck as int).buffer@.len() ==> final(self).lane(
                    deck as int,
                ).buffer@[j] == old(self).lane(deck as int).buffer@[j],
            forall|j: int|
                0 <= j < taken ==> final(self).lane(deck as int).buffer@[old(self).lane(
                    deck as int,
                ).buffer@.len() + j] == clip_sample(#[trigger] samples@[j]),
            final(self).lane(deck as int) == (SharedDeck {
                buffer: final(self).lane(deck as int).buffer,
                ..old(self).lane(deck as int)
            }),
            final(self).lane(deck as int).buffer.cap_spec() == old(self).lane(
                deck as int,
            ).buffer.cap_spec(),
            final(self).other_lane(deck as int) == old(self).other_lane(deck as int),
            final(self).crossfader == old(self).crossfader,
            final(self).sample_rate == old(self).sample_rate,
            final(self).channels == old(self).channels,
    {
        let mut taken: usize = 0;
        let n = samples.len();
        while taken < n
            invariant
                old(self).wf(),
                self.wf(),
                deck < 2,
                taken <= n == samples@.len(),
                self.lane(deck as int).buffer.cap_spec() == old(self).lane(
                    deck as int,
                ).buffer.cap_spec(),
                self.lane(deck as int).buffer@.len() == old(self).lane(deck as int).buffer@.len()
                    + taken,
                forall|j: int|
                    0 <= j < old(self).lane(deck as int).buffer@.len() ==> self.lane(
                        deck as int,
                    ).buffer@[j] == old(self).lane(deck as int).buffer@[j],
                forall|j: int|
                    0 <= j < taken ==> self.lane(deck as int).buffer@[old(self).lane(
                        deck as int,
                    ).buffer@.len() + j] == clip_sample(#[trigger] samples@[j]),
                self.lane(deck as int) == (SharedDeck {
                    buffer: self.lane(deck as int).buffer,
                    ..old(self).lane(deck as int)
                }),
                self.other_lane(deck as int) == old(self).other_lane(deck as int),
                self.crossfader == old(self).crossfader,
                self.sample_rate == old(self).sample_rate,
                self.channels == old(self).channels,
            decreases n - taken,
        {
            let s = samples[taken];
            let ghost pre = self.lane(deck as int).buffer@;
            let accepted = if deck == 0 {
                self.deck1.buffer.push(s)
            } else {
                self.deck2.buffer.push(s)
            };
            if !accepted {
                proof {
                    assert(pre.len() == self.lane(deck as int).buffer.cap_spec());
                }
                return taken;
            }
            taken += 1;
        }
        taken
    }

    /// The lane selected by a deck index.
    pub open spec fn lane(self, deck: int) -> SharedDeck {
        if deck == 0 {
            self.deck1
        } else {
            self.deck2
        }
    }

    /// The lane a deck index does not select.
    pub open spec fn other_lane(self, deck: int) -> SharedDeck {
        if deck == 0 {
            self.deck2
        } else {
            self.deck1
        }
    }

    /// Number of audio channels the bus declares.
    pub fn channel_count(&self) -> (c: u16)
        ensures
            c == self.channels,
    {
        self.channels
    }

    /// Sample rate the bus declares.
    pub fn rate(&self) -> (r: i64)
        ensures
            r == self.sample_rate,
    {
        self.sample_rate
    }
}

/// The staging pipeline maps silence to silence.
proof fn lemma_stage_silent(volume: int, gain: int, eq_sum: int, filter: int)
    ensures
        stage_spec(0, volume, gain, eq_sum, filter) == 0,
{
    assert(0 * volume == 0) by (nonlinear_arith);
    assert(0 * gain == 0) by (nonlinear_arith);
    assert(0 * eq_sum == 0) by (nonlinear_arith);
    assert(0 * (UNIT - abs_spec(filter)) == 0) by (nonlinear_arith);
}

/// With both lanes reading silence and effects off, the bus emits exact
/// silence, whatever the controls read.
pub proof fn lemma_mixer_silent(m: MixerEngine)
    requires
        m.wf(),
        head_or_silence(m.deck1.buffer@) == 0,
        head_or_silence(m.deck2.buffer@) == 0,
        !m.deck1.fx_enabled,
        !m.deck2.fx_enabled,
    ensures
        m.mixed_spec() == 0,
        clamp_spec(m.mixed_spec(), -UNIT as int, UNIT as int) == 0,
{
    lemma_stage_silent(m.deck1.volume as int, m.deck1.gain as int, m.deck1.eq_sum(), m.deck1.filter as int);
    lemma_stage_silent(m.deck2.volume as int, m.deck2.gain as int, m.deck2.eq_sum(), m.deck2.filter as int);
    let m1 = (UNIT - m.crossfader) / 2;
    let m2 = (UNIT + m.crossfader) / 2;
    assert(0 * m1 == 0) by (nonlinear_arith);
    assert(0 * m2 == 0) by (nonlinear_arith);
}

/// With a full-scale sample on the first lane, silence on the second, unit
/// volume and gain, flat EQ, open filter and effects off, the bus emits
/// exactly the crossfader's first-lane weight: the mix is linear in the
/// crossfader.
pub proof fn lemma_mixer_crossfader_linear(m: MixerEngine)
    requires
        m.wf(),
        m.deck1.buffer@.len() > 0,
        m.deck1.buffer@[0] == UNIT,
        m.deck2.buffer@.len() == 0,
        m.deck1.volume == UNIT,
        m.deck1.gain == UNIT,
        m.deck1.eq_sum() == 3 * UNIT,
        m.deck1.filter == 0,
        !m.deck1.fx_enabled,
        !m.deck2.fx_enabled,
    ensures
        m.mixed_spec() == (UNIT - m.crossfader) / 2,
{
    let u = UNIT as int;
    crate::units::lemma_tdiv_multiple(u, u);
    assert(stage_spec(u, u, u, 3 * u, 0) == u) by {
        crate::units::lemma_tdiv_multiple(u, u);
        assert(tdiv(u * u, u) == u);
        crate::units::lemma_tdiv_multiple(u, 3 * u);
        assert(u * (3 * u) == u * (3 * u));
        assert(tdiv(u * (3 * u), 3 * u) == u);
        assert(abs_spec(0) == 0);
        assert(u * (u - 0) == u * u) by (nonlinear_arith);
    }
    lemma_stage_silent(m.deck2.volume as int, m.deck2.gain as int, m.deck2.eq_sum(), m.deck2.filter as int);
    let m1 = (u - m.crossfader) / 2;
    let m2 = (u + m.crossfader) / 2;
    assert(u * m1 == m1 * u) by (nonlinear_arith);
    crate::units::lemma_tdiv_multiple(m1, u);
    assert(tdiv(u * m1, u) == m1);
    assert(0 * m2 == 0) by (nonlinear_arith);
}

/// With every slot of both chains fully dry, the bus's mix is what it would
/// be with the chains switched off: the effects' internal states cannot
/// reach the output.
pub proof fn lemma_mixer_dry_ignores_fx(m: MixerEngine)
    requires
        m.wf(),
        forall|i: int|
            0 <= i < m.deck1.fx_slots@.len() ==> (#[trigger] m.deck1.fx_slots@[i]).dry_wet == 0,
        forall|i: int|
            0 <= i < m.deck2.fx_slots@.len() ==> (#[trigger] m.deck2.fx_slots@[i]).dry_wet == 0,
    ensures
        m.mixed_spec() == (MixerEngine {
            deck1: (SharedDeck { fx_enabled: false, ..m.deck1 }),
            deck2: (SharedDeck { fx_enabled: false, ..m.deck2 }),
            ..m
        }).mixed_spec(),
{
    let s1 = head_or_silence(m.deck1.buffer@);
    let s2 = head_or_silence(m.deck2.buffer@);
    lemma_stage_bounded(s1, m.deck1.volume as int, m.deck1.gain as int, m.deck1.eq_sum(), m.deck1.filter as int);
    lemma_stage_bounded(s2, m.deck2.volume as int, m.deck2.gain as int, m.deck2.eq_sum(), m.deck2.filter as int);
    let t1 = stage_spec(s1, m.deck1.volume as int, m.deck1.gain as int, m.deck1.eq_sum(), m.deck1.filter as int);
    let t2 = stage_spec(s2, m.deck2.volume as int, m.deck2.gain as int, m.deck2.eq_sum(), m.deck2.filter as int);
    let ss1 = m.deck1.fx_slots@.map_values(|sl: FxSlot| sl@);
    let ss2 = m.deck2.fx_slots@.map_values(|sl: FxSlot| sl@);
    assert forall|i: int| 0 <= i < ss1.len() implies (#[trigger] ss1[i]).dry_wet == 0 by {
        assert(ss1[i] == m.deck1.fx_slots@[i]@);
    }
    assert forall|i: int| 0 <= i < ss2.len() implies (#[trigger] ss2[i]).dry_wet == 0 by {
        assert(ss2[i] == m.deck2.fx_slots@[i]@);
    }
    lemma_chain_dry_identity(ss1, t1);
    lemma_chain_dry_identity(ss2, t2);
}

/// One truncating scaled product stays within the doubled magnitude of its
/// input when the control is at most `2 * UNIT`, and within it when at most
/// `UNIT`.
proof fn lemma_tdiv_scale_bound(v: int, a: int)
    requires
        0 <= a <= 2 * UNIT,
    ensures
        v >= 0 ==> 0 <= tdiv(v * a, UNIT as int) <= 2 * v,
        v <= 0 ==> 2 * v <= tdiv(v * a, UNIT as int) <= 0,
        a <= UNIT && v >= 0 ==> tdiv(v * a, UNIT as int) <= v,
        a <= UNIT && v <= 0 ==> v <= tdiv(v * a, UNIT as int),
{
    if v >= 0 {
        assert(0 <= v * a <= (2 * v) * UNIT) by (nonlinear_arith)
            requires
                v >= 0,
                0 <= a <= 2 * UNIT,
        ;
        vstd::arithmetic::div_mod::lemma_div_is_ordered(v * a, (2 * v) * UNIT, UNIT as int);
        crate::units::lemma_tdiv_multiple(2 * v, UNIT as int);
        vstd::arithmetic::div_mod::lemma_div_is_ordered(0, v * a, UNIT as int);
        if a <= UNIT {
            assert(v * a <= v * UNIT) by (nonlinear_arith)
                requires
                    v >= 0,
                    0 <= a <= UNIT,
            ;
            vstd::arithmetic::div_mod::lemma_div_is_ordered(v * a, v * UNIT, UNIT as int);
            crate::units::lemma_tdiv_multiple(v, UNIT as int);
        }
    } else {
        assert(0 <= (-v) * a <= (2 * -v) * UNIT) by (nonlinear_arith)
            requires
                v < 0,
                0 <= a <= 2 * UNIT,
        ;
        assert(-(v * a) == (-v) * a) by (nonlinear_arith);
        vstd::arithmetic::div_mod::lemma_div_is_ordered((-v) * a, (2 * -v) * UNIT, UNIT as int);
        crate::units::lemma_tdiv_multiple(2 * -v, UNIT as int);
        vstd::arithmetic::div_mod::lemma_div_is_ordered(0, (-v) * a, UNIT as int);
        if a <= UNIT {
            assert((-v) * a <= (-v) * UNIT) by (nonlinear_arith)
                requires
                    v < 0,
                    0 <= a <= UNIT,
            ;
            vstd::arithmetic::div_mod::lemma_div_is_ordered((-v) * a, (-v) * UNIT, UNIT as int);
            crate::units::lemma_tdiv_multiple(-v, UNIT as int);
        }
    }
}

/// The staging pipeline keeps any full-scale input within the chain's
/// headroom.
pub proof fn lemma_stage_bounded(s: int, volume: int, gain: int, eq_sum: int, filter: int)
    requires
        -UNIT <= s <= UNIT,
        0 <= volume <= UNIT,
        0 <= gain <= 2 * UNIT,
        0 <= eq_sum <= 6 * UNIT,
        -UNIT <= filter <= UNIT,
    ensures
        -AMP_CEIL <= stage_spec(s, volume, gain, eq_sum, filter) <= AMP_CEIL,
{
    let u = UNIT as int;
    let v1 = tdiv(s * volume, u);
    let v2 = tdiv(v1 * gain, u);
    let v3 = tdiv(v2 * eq_sum, 3 * u);
    lemma_tdiv_scale_bound(s, volume);
    lemma_tdiv_scale_bound(v1, gain);
    if v2 >= 0 {
        assert(v2 * eq_sum <= (4 * UNIT) * (3 * UNIT)) by (nonlinear_arith)
            requires
                0 <= v2 <= 2 * UNIT,
                0 <= eq_sum <= 6 * UNIT,
        ;
        assert(v2 * eq_sum >= 0) by (nonlinear_arith)
            requires
                v2 >= 0,
                eq_sum >= 0,
        ;
        vstd::arithmetic::div_mod::lemma_div_is_ordered(v2 * eq_sum, (4 * UNIT) * (3 * UNIT), 3 * u);
        vstd::arithmetic::div_mod::lemma_div_is_ordered(0, v2 * eq_sum, 3 * u);
        crate::units::lemma_tdiv_multiple(4 * u, 3 * u);
    } else {
        assert(-(v2 * eq_sum) <= (4 * UNIT) * (3 * UNIT)) by (nonlinear_arith)
            requires
                -2 * UNIT <= v2 < 0,
                0 <= eq_sum <= 6 * UNIT,
        ;
        assert(-(v2 * eq_sum) >= 0) by (nonlinear_arith)
            requires
                v2 < 0,
                eq_sum >= 0,
        ;
        vstd::arithmetic::div_mod::lemma_div_is_ordered(
            -(v2 * eq_sum),
            (4 * UNIT) * (3 * UNIT),
            3 * u,
        );
        vstd::arithmetic::div_mod::lemma_div_is_ordered(0, -(v2 * eq_sum), 3 * u);
        crate::units::lemma_tdiv_multiple(4 * u, 3 * u);
    }
    assert(-4 * UNIT <= v3 <= 4 * UNIT);
    lemma_tdiv_scale_bound(v3, u - abs_spec(filter));
}

} // verus!
