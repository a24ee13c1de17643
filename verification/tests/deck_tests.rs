use djcore::beatgrid::BeatGrid;
use djcore::deck::Deck;

fn grid_half_seconds() -> BeatGrid {
    BeatGrid { beats: vec![500, 1000, 1500, 2000], bpm_milli: 120000 }
}

#[test]
fn new_deck_is_idle() {
    let d = Deck::new("Deck 1");
    assert_eq!(d.name, "Deck 1");
    assert_eq!(d.duration_ms, 0);
    assert!(d.origin_ms.is_none());
    assert!(d.cue_ms.is_none());
    assert!(d.hot_cues.iter().all(|h| h.is_none()));
    assert!(!d.is_master);
}

#[test]
fn snap_identity_without_grid() {
    let d = Deck::new("A");
    assert_eq!(d.snap_to_beat(0), 0);
    assert_eq!(d.snap_to_beat(1234), 1234);
    assert_eq!(d.snap_to_beat(999_999), 999_999);
}

#[test]
fn snap_identity_with_empty_grid() {
    let mut d = Deck::new("A");
    d.load_track(0, 10_000, Some(BeatGrid { beats: vec![], bpm_milli: 120000 }), None);
    assert_eq!(d.snap_to_beat(777), 777);
}

#[test]
fn snap_picks_nearest_beat() {
    let mut d = Deck::new("A");
    d.load_track(0, 10_000, Some(grid_half_seconds()), None);
    assert_eq!(d.snap_to_beat(1230), 1000);
    assert_eq!(d.snap_to_beat(1260), 1500);
    assert_eq!(d.snap_to_beat(0), 500);
    assert_eq!(d.snap_to_beat(9000), 2000);
    // Ties keep the earlier beat.
    assert_eq!(d.snap_to_beat(1250), 1000);
}

#[test]
fn hot_cue_snap_scenario() {
    let mut d = Deck::new("A");
    d.load_track(0, 10_000, Some(grid_half_seconds()), None);
    assert_eq!(d.playback_position(1230), 1230);
    d.set_hot_cue(0, 1230);
    assert_eq!(d.hot_cues[0], Some(1230));
    d.jump_to_hot_cue(0, 1230);
    assert_eq!(d.playback_position(1230), 1000);
}

#[test]
fn cue_round_trip_snaps() {
    let mut d = Deck::new("A");
    d.load_track(0, 10_000, Some(grid_half_seconds()), None);
    d.set_cue(1230);
    assert_eq!(d.cue_ms, Some(1230));
    d.jump_to_cue(1230);
    assert_eq!(d.playback_position(1230), 1000);
}

#[test]
fn loop_containment_scenario() {
    let mut d = Deck::new("A");
    d.load_track(0, 10_000, None, None);
    assert_eq!(d.playback_position(1900), 1900);
    d.set_loop_in(2000);
    d.set_loop_out(3000);
    assert_eq!(d.loop_in_ms, Some(2000));
    assert_eq!(d.loop_out_ms, Some(3000));
    // Two seconds of wall clock later the position is inside the loop.
    let p = d.playback_position(3900);
    assert!((2000..=3000).contains(&p));
    // Successive reads never pass the loop exit.
    for now in (3900..8000).step_by(137) {
        let p = d.playback_position(now);
        assert!(p <= 3000);
    }
}

#[test]
fn loop_disarmed_when_out_of_order() {
    let mut d = Deck::new("A");
    d.load_track(0, 10_000, None, None);
    d.set_loop_in(3000);
    d.set_loop_out(2500);
    // loop_in >= loop_out: the loop is not armed, position clamps to length.
    assert_eq!(d.playback_position(4000), 4000);
    assert_eq!(d.playback_position(12_000), 10_000);
    d.clear_loop();
    assert!(d.loop_in_ms.is_none() && d.loop_out_ms.is_none());
}

#[test]
fn pause_freezes_and_play_resumes() {
    let mut d = Deck::new("A");
    d.load_track(0, 60_000, None, None);
    assert_eq!(d.playback_position(5000), 5000);
    d.pause(5000);
    assert!(d.origin_ms.is_none());
    // Time passes; the position stays frozen.
    assert_eq!(d.playback_position(9000), 5000);
    d.play(9000);
    assert_eq!(d.playback_position(9000), 5000);
    assert_eq!(d.playback_position(10_000), 6000);
    // A second play is idempotent.
    d.play(10_500);
    assert_eq!(d.playback_position(11_000), 7000);
}

#[test]
fn position_clamps_to_duration() {
    let mut d = Deck::new("A");
    d.load_track(0, 4000, None, None);
    assert_eq!(d.playback_position(3999), 3999);
    assert_eq!(d.playback_position(4001), 4000);
    assert_eq!(d.playback_position(100_000), 4000);
}

#[test]
fn effective_bpm_precedence() {
    let mut d = Deck::new("A");
    assert_eq!(d.effective_bpm(), 120000);
    d.load_track(0, 10_000, Some(BeatGrid { beats: vec![500, 1000], bpm_milli: 128000 }), None);
    assert_eq!(d.effective_bpm(), 128000);
    d.set_bpm_override(Some(140000));
    assert_eq!(d.effective_bpm(), 140000);
    d.set_bpm_override(None);
    assert_eq!(d.effective_bpm(), 128000);
}

#[test]
fn set_pitch_clamps() {
    let mut d = Deck::new("A");
    d.set_pitch(500);
    assert_eq!(d.pitch_milli, 500);
    d.set_pitch(5000);
    assert_eq!(d.pitch_milli, 1000);
    d.set_pitch(-5000);
    assert_eq!(d.pitch_milli, -1000);
}

#[test]
fn load_clears_markers() {
    let mut d = Deck::new("A");
    d.load_track(0, 10_000, None, None);
    d.set_cue(100);
    d.set_hot_cue(2, 200);
    d.set_loop_in(300);
    d.set_loop_out(400);
    d.load_track(500, 20_000, None, None);
    assert!(d.cue_ms.is_none());
    assert!(d.hot_cues.iter().all(|h| h.is_none()));
    assert!(d.loop_in_ms.is_none() && d.loop_out_ms.is_none());
    assert_eq!(d.duration_ms, 20_000);
    assert_eq!(d.playback_position(500), 0);
}

#[test]
fn set_master_flag() {
    let mut d = Deck::new("A");
    d.set_master(true);
    assert!(d.is_master);
    d.set_master(false);
    assert!(!d.is_master);
}
