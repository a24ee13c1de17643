use djcore::beatgrid::detect_beats;
use djcore::library::Library;
use djcore::pads::{PadAction, PadPreset};
use djcore::units::UNIT;
use djcore::waveform::extract_waveform;

/// A click track: short full-scale bursts every `period` samples.
fn click_track(len: usize, period: usize, burst: usize) -> Vec<i64> {
    (0..len).map(|i| if i % period < burst { UNIT } else { 0 }).collect()
}

#[test]
fn default_bpm_on_silence() {
    let grid = detect_beats(&vec![0; 50_000], 44_100);
    assert_eq!(grid.bpm_milli, 120_000);
    assert!(grid.beats.is_empty());
}

#[test]
fn default_bpm_on_short_input() {
    // Less than one analysis window: no frames, no peaks.
    let grid = detect_beats(&vec![UNIT; 512], 44_100);
    assert_eq!(grid.bpm_milli, 120_000);
    assert!(grid.beats.is_empty());
}

#[test]
fn beats_strictly_increase() {
    // Clicks every half second at 8 kHz.
    let samples = click_track(80_000, 4_000, 600);
    let grid = detect_beats(&samples, 8_000);
    assert!(grid.beats.len() >= 2);
    for w in grid.beats.windows(2) {
        assert!(w[0] < w[1]);
    }
}

#[test]
fn click_track_tempo_estimate() {
    // Clicks every half second: 120 BPM, up to the hop quantisation.
    let samples = click_track(160_000, 4_000, 600);
    let grid = detect_beats(&samples, 8_000);
    assert!((100_000..=145_000).contains(&grid.bpm_milli), "bpm {}", grid.bpm_milli);
    // Every inter-beat gap sits near half a second.
    for w in grid.beats.windows(2) {
        let gap = w[1] - w[0];
        assert!((350..=700).contains(&gap), "gap {}", gap);
    }
}

#[test]
fn tempo_stays_in_band() {
    let samples = click_track(200_000, 2_000, 400);
    let grid = detect_beats(&samples, 8_000);
    assert!((30_000..=300_000).contains(&grid.bpm_milli));
}

#[test]
fn waveform_decimates_one_in_512() {
    let samples: Vec<i64> = (0..2000).map(|i| i % UNIT).collect();
    let w = extract_waveform(&samples);
    assert_eq!(w.len(), 4);
    for (k, p) in w.iter().enumerate() {
        assert_eq!(p.index, (k * 512) as i64);
        assert_eq!(p.amplitude, samples[k * 512]);
    }
}

#[test]
fn waveform_of_empty_input() {
    let w = extract_waveform(&Vec::new());
    assert!(w.is_empty());
}

#[test]
fn waveform_length_rounds_up() {
    let samples = vec![7; 513];
    let w = extract_waveform(&samples);
    assert_eq!(w.len(), 2);
    assert_eq!(w[1].index, 512);
}

#[test]
fn pad_preset_holds_actions() {
    let mut p = PadPreset::new("Deck 1");
    p.push_action(PadAction::Play);
    p.push_action(PadAction::Cue);
    p.push_action(PadAction::Sync);
    p.push_action(PadAction::Loop);
    assert_eq!(p.name, "Deck 1");
    assert_eq!(p.actions.len(), 4);
    assert_eq!(p.actions[0], PadAction::Play);
    assert_eq!(p.actions[3], PadAction::Loop);
}

#[test]
fn library_lists_tracks_in_order() {
    let mut l = Library::default();
    assert_eq!(l.len(), 0);
    l.add_track("a.mp3".to_string());
    l.add_track("b.flac".to_string());
    assert_eq!(l.len(), 2);
    assert_eq!(l.tracks[0], "a.mp3");
    assert_eq!(l.tracks[1], "b.flac");
}
