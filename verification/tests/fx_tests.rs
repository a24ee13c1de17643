use djcore::fx::{EchoDivision, EchoFx, Effect, LowPassFilter, ReverbFx};
use djcore::units::UNIT;

#[test]
fn echo_delay_formula() {
    // round(48000 * 60/120 * 1/4) = 6000 samples.
    let fx = EchoFx::new_sync(120000, EchoDivision::Quarter, 48000, 0);
    assert_eq!(fx.buffer.len(), 6000);
    let fx = EchoFx::new_sync(120000, EchoDivision::Half, 48000, 0);
    assert_eq!(fx.buffer.len(), 12000);
    let fx = EchoFx::new_sync(120000, EchoDivision::Whole, 48000, 0);
    assert_eq!(fx.buffer.len(), 24000);
}

#[test]
fn echo_period_scenario() {
    let mut fx = EchoFx::new_sync(120000, EchoDivision::Quarter, 48000, 0);
    assert_eq!(fx.apply(1000), 1000);
    for _ in 1..6000 {
        assert_eq!(fx.apply(0), 0);
    }
    // Exactly one delay after the impulse, the echo comes out.
    assert_eq!(fx.apply(0), 1000);
    // With zero feedback, nothing is fed back for a second pass.
    for _ in 0..6000 {
        assert_eq!(fx.apply(0), 0);
    }
}

#[test]
fn echo_retune_doubles_delay() {
    let mut fx = EchoFx::new_sync(120000, EchoDivision::Quarter, 48000, 0);
    assert_eq!(fx.buffer.len(), 6000);
    fx.update_bpm(60000);
    assert_eq!(fx.buffer.len(), 12000);
    // The echo of an impulse now arrives at twice the prior delay.
    assert_eq!(fx.apply(1000), 1000);
    for _ in 1..12000 {
        assert_eq!(fx.apply(0), 0);
    }
    assert_eq!(fx.apply(0), 1000);
}

#[test]
fn echo_feedback_decays() {
    // Feedback at half scale: each round trip halves the echo.
    let mut fx = EchoFx::new_sync(120000, EchoDivision::Quarter, 48000, UNIT / 2);
    assert_eq!(fx.apply(1024), 1024);
    for _ in 1..6000 {
        assert_eq!(fx.apply(0), 0);
    }
    assert_eq!(fx.apply(0), 1024);
    for _ in 1..6000 {
        assert_eq!(fx.apply(0), 0);
    }
    assert_eq!(fx.apply(0), 512);
}

#[test]
fn echo_clamps_out_of_range_parameters() {
    let fx = EchoFx::new_sync(1, EchoDivision::Whole, 48000, UNIT * 10);
    assert_eq!(fx.bpm_milli, 30000);
    assert_eq!(fx.feedback, UNIT);
}

#[test]
fn lowpass_steps_toward_input() {
    let mut fx = LowPassFilter::new(UNIT / 2);
    // state += alpha * (x - state): half the distance per sample.
    assert_eq!(fx.apply(65536), 32768);
    assert_eq!(fx.apply(65536), 49152);
    assert_eq!(fx.apply(0), 24576);
}

#[test]
fn lowpass_clamps_cutoff() {
    // A cutoff of zero still moves: the coefficient floor is about 0.01.
    let mut fx = LowPassFilter::new(0);
    assert_eq!(fx.apply(65536), 655);
    // A cutoff past full scale is capped below 1.0.
    let mut fx = LowPassFilter::new(10 * UNIT);
    assert_eq!(fx.apply(65536), 64881);
}

#[test]
fn reverb_blends_last_output() {
    let mut fx = ReverbFx::new(UNIT / 2);
    assert_eq!(fx.apply(1000), 1000);
    assert_eq!(fx.apply(0), 500);
    assert_eq!(fx.apply(0), 250);
}

#[test]
fn effect_reset_clears_memory() {
    let mut e = Effect::Reverb(ReverbFx::new(UNIT / 2));
    assert_eq!(e.apply(1000), 1000);
    e.reset();
    assert_eq!(e.apply(0), 0);

    let mut e = Effect::Echo(EchoFx::new_sync(120000, EchoDivision::Quarter, 48000, 0));
    assert_eq!(e.apply(1000), 1000);
    e.reset();
    for _ in 0..6001 {
        assert_eq!(e.apply(0), 0);
    }
}

#[test]
fn effect_update_tempo_only_retunes_echo() {
    let mut e = Effect::Echo(EchoFx::new_sync(120000, EchoDivision::Quarter, 48000, 0));
    e.update_tempo(60000);
    match &e {
        Effect::Echo(fx) => assert_eq!(fx.buffer.len(), 12000),
        _ => panic!("echo expected"),
    }
    let mut e = Effect::LowPass(LowPassFilter::new(UNIT / 2));
    e.update_tempo(60000);
    assert_eq!(e.apply(65536), 32768);
}
