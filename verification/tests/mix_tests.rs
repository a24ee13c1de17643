use djcore::fx::{EchoDivision, EchoFx, Effect, ReverbFx};
use djcore::mix::{FxSlot, MixerEngine, RingBuffer};
use djcore::units::UNIT;

#[test]
fn ring_buffer_is_fifo() {
    let mut b = RingBuffer::new(8);
    assert!(b.push(1));
    assert!(b.push(2));
    assert!(b.push(3));
    assert_eq!(b.len(), 3);
    assert_eq!(b.pop(), Some(1));
    assert_eq!(b.pop(), Some(2));
    assert_eq!(b.pop(), Some(3));
    assert_eq!(b.pop(), None);
}

#[test]
fn ring_buffer_bounds_and_clips() {
    let mut b = RingBuffer::new(2);
    assert!(b.push(10 * UNIT));
    assert!(b.push(-10 * UNIT));
    // Full: the third sample is refused, not queued.
    assert!(!b.push(7));
    assert_eq!(b.pop(), Some(UNIT));
    assert_eq!(b.pop(), Some(-UNIT));
}

#[test]
fn silent_decks_mix_to_silence() {
    let mut m = MixerEngine::new(48000, 2, 64);
    for _ in 0..16 {
        assert_eq!(m.next_sample(), 0);
    }
}

#[test]
fn crossfader_linearity() {
    // A full-scale sample on the first lane, silence on the second, unit
    // volume and gain, flat EQ, open filter: output is exactly the
    // crossfader's first-lane weight (UNIT - xf) / 2.
    for (xf, expect) in [
        (-UNIT, UNIT),
        (-UNIT / 2, 3 * UNIT / 4),
        (0, UNIT / 2),
        (UNIT / 2, UNIT / 4),
        (UNIT, 0),
    ] {
        let mut m = MixerEngine::new(48000, 2, 64);
        m.set_crossfader(xf);
        assert!(m.deck1.buffer.push(UNIT));
        assert_eq!(m.next_sample(), expect);
    }
}

#[test]
fn crossfade_sweep_both_lanes() {
    // With both lanes at full scale the linear weights sum to one: the
    // output holds full scale across the sweep.
    for xf in [-UNIT, -UNIT / 2, 0, UNIT / 2, UNIT] {
        let mut m = MixerEngine::new(48000, 2, 64);
        m.set_crossfader(xf);
        assert!(m.deck1.buffer.push(UNIT));
        assert!(m.deck2.buffer.push(UNIT));
        assert_eq!(m.next_sample(), UNIT);
    }
}

#[test]
fn mix_clips_to_full_scale() {
    let mut m = MixerEngine::new(48000, 2, 64);
    m.set_gain(0, 2 * UNIT);
    m.set_crossfader(-UNIT);
    assert!(m.deck1.buffer.push(UNIT));
    assert_eq!(m.next_sample(), UNIT);
}

#[test]
fn volume_and_gain_scale_output() {
    let mut m = MixerEngine::new(48000, 2, 64);
    m.set_crossfader(-UNIT);
    m.set_volume(0, UNIT / 2);
    assert!(m.deck1.buffer.push(UNIT));
    assert_eq!(m.next_sample(), UNIT / 2);

    let mut m = MixerEngine::new(48000, 2, 64);
    m.set_crossfader(-UNIT);
    m.set_gain(0, UNIT / 4);
    assert!(m.deck1.buffer.push(UNIT));
    assert_eq!(m.next_sample(), UNIT / 4);
}

#[test]
fn eq_is_a_summed_scalar() {
    // EQ multiplies by (low + mid + high) / 3; halving every band halves the
    // output.
    let mut m = MixerEngine::new(48000, 2, 64);
    m.set_crossfader(-UNIT);
    for band in 0..3 {
        m.set_eq(0, band, UNIT / 2);
    }
    assert!(m.deck1.buffer.push(UNIT));
    assert_eq!(m.next_sample(), UNIT / 2);
}

#[test]
fn filter_cuts_either_direction() {
    for f in [UNIT / 2, -UNIT / 2] {
        let mut m = MixerEngine::new(48000, 2, 64);
        m.set_crossfader(-UNIT);
        m.set_filter(0, f);
        assert!(m.deck1.buffer.push(UNIT));
        assert_eq!(m.next_sample(), UNIT / 2);
    }
}

#[test]
fn control_setters_clamp() {
    let mut m = MixerEngine::new(48000, 2, 64);
    m.set_volume(0, 10 * UNIT);
    assert_eq!(m.deck1.volume, UNIT);
    m.set_gain(1, -5);
    assert_eq!(m.deck2.gain, 0);
    m.set_filter(0, 3 * UNIT);
    assert_eq!(m.deck1.filter, UNIT);
    m.set_crossfader(-9 * UNIT);
    assert_eq!(m.crossfader, -UNIT);
    m.set_eq(1, 2, 7 * UNIT);
    assert_eq!(m.deck2.eq[2], 2 * UNIT);
}

#[test]
fn dry_slots_leave_output_unchanged() {
    // Two engines fed the same samples; one has an enabled echo and reverb
    // at dry_wet = 0. The outputs agree sample for sample.
    let mut plain = MixerEngine::new(48000, 2, 256);
    let mut with_fx = MixerEngine::new(48000, 2, 256);
    with_fx.set_fx_enabled(0, true);
    let echo = Effect::Echo(EchoFx::new_sync(120000, EchoDivision::Quarter, 48000, UNIT / 2));
    let reverb = Effect::Reverb(ReverbFx::new(UNIT / 2));
    with_fx.push_fx_slot(0, FxSlot::new(echo, 0, true, false));
    with_fx.push_fx_slot(0, FxSlot::new(reverb, 0, false, true));
    let samples: Vec<i64> = (0..200).map(|i| (i * 327) % UNIT - UNIT / 2).collect();
    assert_eq!(plain.push_samples(0, &samples), 200);
    assert_eq!(with_fx.push_samples(0, &samples), 200);
    for _ in 0..200 {
        assert_eq!(plain.next_sample(), with_fx.next_sample());
    }
}

#[test]
fn wet_slot_changes_output() {
    // A fully wet slot is audible: the smoother's memory shows up.
    let mut m = MixerEngine::new(48000, 2, 64);
    m.set_crossfader(-UNIT);
    m.set_fx_enabled(0, true);
    let reverb = Effect::Reverb(ReverbFx::new(UNIT));
    m.push_fx_slot(0, FxSlot::new(reverb, UNIT, true, false));
    assert!(m.deck1.buffer.push(UNIT / 4));
    assert!(m.deck1.buffer.push(0));
    assert_eq!(m.next_sample(), UNIT / 4);
    // The smoother re-emits the previous output on silence.
    assert_eq!(m.next_sample(), UNIT / 4);
}

#[test]
fn slot_replacement_and_disable() {
    let mut m = MixerEngine::new(48000, 2, 64);
    m.set_fx_enabled(0, true);
    let reverb = Effect::Reverb(ReverbFx::new(UNIT));
    m.push_fx_slot(0, FxSlot::new(reverb, UNIT, true, false));
    let lp = Effect::LowPass(djcore::fx::LowPassFilter::new(UNIT / 2));
    m.set_fx_slot(0, 0, FxSlot::new(lp, 0, false, false));
    m.set_crossfader(-UNIT);
    assert!(m.deck1.buffer.push(UNIT / 4));
    assert_eq!(m.next_sample(), UNIT / 4);
}

#[test]
fn load_and_play_scenario() {
    // A loaded lane yields sound as soon as the bus pulls, and silence once
    // its queue underflows.
    let mut m = MixerEngine::new(44100, 2, 4096);
    m.set_crossfader(-UNIT);
    let click: Vec<i64> = (0..1000).map(|i| if i % 100 == 0 { UNIT / 2 } else { 0 }).collect();
    assert_eq!(m.push_samples(0, &click), 1000);
    assert_eq!(m.next_sample(), UNIT / 2);
    let mut heard = 1;
    for _ in 1..1000 {
        if m.next_sample() != 0 {
            heard += 1;
        }
    }
    assert_eq!(heard, 10);
    // Drained: the deck silences.
    for _ in 0..64 {
        assert_eq!(m.next_sample(), 0);
    }
}

#[test]
fn reported_format() {
    let m = MixerEngine::new(44100, 2, 64);
    assert_eq!(m.rate(), 44100);
    assert_eq!(m.channel_count(), 2);
}
